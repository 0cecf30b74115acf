//! Strips and the spaces of the system: which one is shown, which windows are
//! on it, and what becomes of strips whose display is gone.
use vstd::prelude::*;

use crate::geometry::{Entity, IRect, IVec2};
use crate::layout;
use crate::layout::laws;
use crate::layout::{ColumnModel, LayoutStrip, WorkspaceId};
use crate::reconcile::{KnownDisplay, ScannedDisplay};
use crate::search;
use crate::triggers::messages::has_number;
use crate::windowset::WinID;

verus! {

// ---------------------------------------------------------------------------
// Which strip is shown
// ---------------------------------------------------------------------------
/// A strip, what stands for it, and whether it is the one that is shown.
#[derive(Debug)]
pub struct WorkspaceEntry {
    pub strip: LayoutStrip,
    pub entity: Entity,
    pub active: bool,
}

/// What a [`WorkspaceEntry`] holds.
pub struct EntryModel {
    pub id: WorkspaceId,
    pub columns: Seq<ColumnModel>,
    pub entity: Entity,
    pub active: bool,
}

impl View for WorkspaceEntry {
    type V = EntryModel;

    open spec fn view(&self) -> EntryModel {
        EntryModel {
            id: self.strip.spec_id(),
            columns: self.strip@,
            entity: self.entity,
            active: self.active,
        }
    }
}

/// What a list of strips holds.
pub open spec fn entries_view(entries: Seq<WorkspaceEntry>) -> Seq<EntryModel> {
    entries.map_values(|e: WorkspaceEntry| e@)
}

/// How the strip that is shown changes.
#[derive(Clone, Copy, Debug, PartialEq, Eq, Structural)]
pub enum SpaceSwitch {
    /// It does not.
    Stay,
    /// Another one is shown.
    Switch { from: Entity, into: Entity },
    /// A new one is made for a window that fills the display, at its corner. It
    /// remembers where the window came from.
    Fullscreen {
        from: Entity,
        window: Entity,
        origin: IVec2,
        previous_strip: WorkspaceId,
        previous_index: usize,
    },
}

/// The strips that are shown though another space is.
pub open spec fn is_stale(space: WorkspaceId) -> spec_fn(EntryModel) -> bool {
    |e: EntryModel| e.active && e.id != space
}

/// The strips of the space that is shown, not marked as such.
pub open spec fn is_arriving(space: WorkspaceId) -> spec_fn(EntryModel) -> bool {
    |e: EntryModel| !e.active && e.id == space
}

/// How the strip that is shown changes when a space is shown, and the strips
/// after it. A space without a strip that is filled by one window takes the
/// focused window off the strip that was shown.
pub open spec fn switched(
    entries: Seq<EntryModel>,
    space: WorkspaceId,
    fullscreen_space: bool,
    focused: Option<Entity>,
    display: IRect,
) -> (SpaceSwitch, Seq<EntryModel>) {
    match (
        search::last_index(entries, is_stale(space)),
        search::last_index(entries, is_arriving(space)),
    ) {
        (Some(from), Some(into)) => (
            SpaceSwitch::Switch { from: entries[from].entity, into: entries[into].entity },
            entries,
        ),
        (Some(from), None) => if fullscreen_space && focused is Some {
            let window = focused->0;
            let columns = entries[from].columns;
            (
                SpaceSwitch::Fullscreen {
                    from: entries[from].entity,
                    window,
                    origin: display.min,
                    previous_strip: entries[from].id,
                    previous_index: match layout::index(columns, window) {
                        Some(i) => i as usize,
                        None => 0,
                    },
                },
                entries.update(
                    from,
                    EntryModel { columns: layout::removed(columns, window), ..entries[from] },
                ),
            )
        } else {
            (SpaceSwitch::Stay, entries)
        },
        _ => (SpaceSwitch::Stay, entries),
    }
}

/// Shows the strip of a space.
pub fn workspace_change(
    entries: &mut Vec<WorkspaceEntry>,
    workspace_id: WorkspaceId,
    fullscreen_space: bool,
    focused: Option<Entity>,
    display: &IRect,
) -> (switch: SpaceSwitch)
    ensures
        (switch, entries_view(final(entries)@)) == switched(
            entries_view(old(entries)@),
            workspace_id,
            fullscreen_space,
            focused,
            *display,
        ),
{
    let ghost view = entries_view(entries@);
    let ghost stale = is_stale(workspace_id);
    let ghost arriving = is_arriving(workspace_id);
    let mut from: Option<usize> = None;
    let mut into: Option<usize> = None;
    let mut i: usize = 0;
    while i < entries.len()
        invariant
            i <= entries.len(),
            entries@ == old(entries)@,
            view == entries_view(entries@),
            stale == is_stale(workspace_id),
            arriving == is_arriving(workspace_id),
            from matches Some(f) ==> search::is_last(view.take(i as int), stale, f as int),
            from is None ==> forall|j: int| 0 <= j < i ==> !stale(#[trigger] view[j]),
            into matches Some(f) ==> search::is_last(view.take(i as int), arriving, f as int),
            into is None ==> forall|j: int| 0 <= j < i ==> !arriving(#[trigger] view[j]),
        decreases entries.len() - i,
    {
        assert(view[i as int] == entries@[i as int]@);
        let active = entries[i].active;
        let id: WorkspaceId = entries[i].strip.id();
        let ghost taken = view.take(i as int);
        let ghost grown = view.take(i + 1);
        assert(grown =~= taken.push(view[i as int]));
        if active && id != workspace_id {
            from = Some(i);
        }
        if !active && id == workspace_id {
            into = Some(i);
        }
        i = i + 1;
    }
    assert(view.take(i as int) =~= view);
    proof {
        if let Some(f) = from {
            search::lemma_last_index(view, stale, f as int);
        } else {
            search::lemma_no_last_index(view, stale);
        }
        if let Some(f) = into {
            search::lemma_last_index(view, arriving, f as int);
        } else {
            search::lemma_no_last_index(view, arriving);
        }
    }
    let at: usize = match from {
        Some(at) => at,
        None => return SpaceSwitch::Stay,
    };
    assert(view[at as int] == entries@[at as int]@);
    match into {
        Some(to) => {
            assert(view[to as int] == entries@[to as int]@);
            SpaceSwitch::Switch { from: entries[at].entity, into: entries[to].entity }
        },
        None => {
            let window = match focused {
                Some(window) => window,
                None => return SpaceSwitch::Stay,
            };
            if !fullscreen_space {
                return SpaceSwitch::Stay;
            }
            let previous_index: usize = match entries[at].strip.index_of(window) {
                Ok(index) => index,
                Err(_) => 0,
            };
            let previous_strip: WorkspaceId = entries[at].strip.id();
            let entity = entries[at].entity;
            entries[at].strip.remove(window);
            assert(entries_view(entries@) =~= switched(
                view,
                workspace_id,
                fullscreen_space,
                focused,
                *display,
            ).1);
            SpaceSwitch::Fullscreen {
                from: entity,
                window,
                origin: display.min,
                previous_strip,
                previous_index,
            }
        },
    }
}

/// Says whether the space on the active display has changed, and remembers it.
pub fn workspace_change_watcher(current: &mut WorkspaceId, space: WorkspaceId) -> (changed: bool)
    ensures
        *final(current) == space,
        changed == (*old(current) != space),
{
    if *current != space {
        *current = space;
        true
    } else {
        false
    }
}

/// The strip of a space, if it has one.
pub open spec fn strip_of(space: WorkspaceId, strips: Seq<(WorkspaceId, Entity)>) -> Option<
    Entity,
> {
    match search::first_where(strips, of_space(space)) {
        Some((_, entity)) => Some(entity),
        None => None,
    }
}

/// The strips of a space.
pub open spec fn of_space(space: WorkspaceId) -> spec_fn((WorkspaceId, Entity)) -> bool {
    |s: (WorkspaceId, Entity)| s.0 == space
}

/// The strip that goes when its space is destroyed: the first one of it.
pub fn workspace_destroyed(space: WorkspaceId, strips: &Vec<(WorkspaceId, Entity)>) -> (gone: Option<
    Entity,
>)
    ensures
        gone == strip_of(space, strips@),
{
    let mut i: usize = 0;
    while i < strips.len()
        invariant
            i <= strips.len(),
            forall|j: int| 0 <= j < i ==> (#[trigger] strips@[j]).0 != space,
        decreases strips.len() - i,
    {
        if strips[i].0 == space {
            proof {
                search::lemma_first_index(strips@, of_space(space), i as int);
            }
            return Some(strips[i].1);
        }
        i = i + 1;
    }
    proof {
        search::lemma_no_first_index(strips@, of_space(space));
    }
    None
}

/// The strip of a new space, empty, and where it is: at the corner of the display. A
/// space that has a strip gets none.
pub open spec fn new_strip(space: WorkspaceId, strips: Seq<WorkspaceId>, display: IRect) -> Option<
    (WorkspaceId, Seq<ColumnModel>, IVec2),
> {
    if strips.contains(space) {
        None
    } else {
        Some((space, Seq::empty(), display.min))
    }
}

/// The strip to make when a space is created, and where: at the corner of the display
/// that is used. There is none to make where there is one already.
pub fn workspace_created(space: WorkspaceId, strips: &Vec<WorkspaceId>, display: &IRect) -> (strip:
    Option<(LayoutStrip, IVec2)>)
    ensures
        match new_strip(space, strips@, *display) {
            Some((id, columns, corner)) => strip matches Some((s, origin)) && s.spec_id() == id
                && s@ == columns && origin == corner,
            None => strip is None,
        },
{
    let mut i: usize = 0;
    while i < strips.len()
        invariant
            i <= strips.len(),
            forall|j: int| 0 <= j < i ==> #[trigger] strips@[j] != space,
        decreases strips.len() - i,
    {
        if strips[i] == space {
            return None;
        }
        i = i + 1;
    }
    Some((LayoutStrip::new(space), display.min))
}

// ---------------------------------------------------------------------------
// Windows that moved to another space
// ---------------------------------------------------------------------------
/// The entries of the table for a window id.
pub open spec fn names(id: WinID) -> spec_fn((WinID, Entity)) -> bool {
    |entry: (WinID, Entity)| entry.0 == id
}

/// The window with this id that is not on the strip, if it is known.
pub open spec fn arrives(windows: Seq<(WinID, Entity)>, columns: Seq<ColumnModel>) -> spec_fn(
    WinID,
) -> Option<Entity> {
    |id: WinID|
        match search::first_where(windows, names(id)) {
            Some((_, entity)) => if layout::index(columns, entity) is None {
                Some(entity)
            } else {
                None
            },
            None => None,
        }
}

/// The id, where no window is known by it.
pub open spec fn unknown(windows: Seq<(WinID, Entity)>) -> spec_fn(WinID) -> Option<WinID> {
    |id: WinID|
        if search::first_where(windows, names(id)) is None {
            Some(id)
        } else {
            None
        }
}

/// The window with this id, if it is known.
fn find(windows: &Vec<(WinID, Entity)>, id: WinID) -> (found: Option<Entity>)
    ensures
        found == match search::first_where(windows@, names(id)) {
            Some((_, entity)) => Some(entity),
            None => None,
        },
{
    let mut i: usize = 0;
    while i < windows.len()
        invariant
            i <= windows.len(),
            forall|j: int| 0 <= j < i ==> (#[trigger] windows@[j]).0 != id,
        decreases windows.len() - i,
    {
        if windows[i].0 == id {
            proof {
                search::lemma_first_index(windows@, names(id), i as int);
            }
            return Some(windows[i].1);
        }
        i = i + 1;
    }
    proof {
        search::lemma_no_first_index(windows@, names(id));
    }
    None
}

/// Compares the windows that the system has on a space with the strip: those
/// that are known and not on it, and the ids by which none is known.
pub fn windows_not_in_strip(
    ids: &Vec<WinID>,
    windows: &Vec<(WinID, Entity)>,
    strip: &LayoutStrip,
) -> (result: (Vec<Entity>, Vec<WinID>))
    ensures
        result.0@ == ids@.filter_map(arrives(windows@, strip@)),
        result.1@ == ids@.filter_map(unknown(windows@)),
{
    let ghost f = arrives(windows@, strip@);
    let ghost g = unknown(windows@);
    let mut moved: Vec<Entity> = Vec::new();
    let mut unresolved: Vec<WinID> = Vec::new();
    let mut i: usize = 0;
    assert(ids@.take(0).filter_map(f) =~= Seq::empty());
    assert(ids@.take(0).filter_map(g) =~= Seq::empty());
    while i < ids.len()
        invariant
            i <= ids.len(),
            f == arrives(windows@, strip@),
            g == unknown(windows@),
            moved@ == ids@.take(i as int).filter_map(f),
            unresolved@ == ids@.take(i as int).filter_map(g),
        decreases ids.len() - i,
    {
        proof {
            ids@.lemma_filter_map_take_succ(f, i as int);
            ids@.lemma_filter_map_take_succ(g, i as int);
        }
        match find(windows, ids[i]) {
            Some(entity) => {
                if strip.index_of(entity).is_err() {
                    moved.push(entity);
                }
            },
            None => unresolved.push(ids[i]),
        }
        assert(moved@ =~= ids@.take(i + 1).filter_map(f));
        assert(unresolved@ =~= ids@.take(i + 1).filter_map(g));
        i = i + 1;
    }
    assert(ids@.take(i as int) =~= ids@);
    (moved, unresolved)
}

/// A strip on a display.
#[derive(Debug)]
pub struct AttachedStrip {
    pub strip: LayoutStrip,
    pub entity: Entity,
    pub parent: Entity,
}

/// What an [`AttachedStrip`] holds.
pub struct AttachedModel {
    pub id: WorkspaceId,
    pub columns: Seq<ColumnModel>,
    pub entity: Entity,
    pub parent: Entity,
}

impl View for AttachedStrip {
    type V = AttachedModel;

    open spec fn view(&self) -> AttachedModel {
        AttachedModel {
            id: self.strip.spec_id(),
            columns: self.strip@,
            entity: self.entity,
            parent: self.parent,
        }
    }
}

/// What a list of strips holds.
pub open spec fn attached_view(strips: Seq<AttachedStrip>) -> Seq<AttachedModel> {
    strips.map_values(|s: AttachedStrip| s@)
}

/// Where a window came from that fills a display.
#[derive(Clone, Copy, Debug, PartialEq, Eq, Structural)]
pub struct NativeFullscreenMarker {
    pub previous_strip: WorkspaceId,
    pub previous_index: usize,
}

/// The markers of windows that came from this space.
pub open spec fn came_from(space: WorkspaceId) -> spec_fn(NativeFullscreenMarker) -> bool {
    |m: NativeFullscreenMarker| m.previous_strip == space
}

/// A strip after a window has moved to a space of a display: the window is on
/// the strip of that space, where it came from if it filled a display, else at
/// the end; and on no other.
pub open spec fn after_arrival(
    window: Entity,
    space: WorkspaceId,
    display: Entity,
    fullscreened: Seq<NativeFullscreenMarker>,
) -> spec_fn(AttachedModel) -> AttachedModel {
    |s: AttachedModel|
        {
            let without = layout::removed(s.columns, window);
            AttachedModel {
                columns: if s.id == space && s.parent == display {
                    match search::first_where(fullscreened, came_from(space)) {
                        Some(marker) => layout::inserted(
                            without,
                            marker.previous_index as int,
                            window,
                        ),
                        None => without.push(ColumnModel::Single(window)),
                    }
                } else {
                    without
                },
                ..s
            }
        }
}

/// The strips after some windows have moved to a space, in order.
pub open spec fn after_arrivals(
    windows: Seq<Entity>,
    space: WorkspaceId,
    display: Entity,
    fullscreened: Seq<NativeFullscreenMarker>,
    strips: Seq<AttachedModel>,
) -> Seq<AttachedModel>
    decreases windows.len(),
{
    if windows.len() == 0 {
        strips
    } else {
        after_arrivals(windows.drop_last(), space, display, fullscreened, strips).map_values(
            after_arrival(windows.last(), space, display, fullscreened),
        )
    }
}

/// Where a window goes that comes back to a space after it filled a display.
fn return_index(fullscreened: &Vec<NativeFullscreenMarker>, space: WorkspaceId) -> (index: Option<
    usize,
>)
    ensures
        index == match search::first_where(fullscreened@, came_from(space)) {
            Some(marker) => Some(marker.previous_index),
            None => None,
        },
{
    let mut i: usize = 0;
    while i < fullscreened.len()
        invariant
            i <= fullscreened.len(),
            forall|j: int| 0 <= j < i ==> (#[trigger] fullscreened@[j]).previous_strip != space,
        decreases fullscreened.len() - i,
    {
        if fullscreened[i].previous_strip == space {
            proof {
                search::lemma_first_index(fullscreened@, came_from(space), i as int);
            }
            return Some(fullscreened[i].previous_index);
        }
        i = i + 1;
    }
    proof {
        search::lemma_no_first_index(fullscreened@, came_from(space));
    }
    None
}

/// Puts the windows that moved to a space onto its strip.
pub fn receive_windows(
    windows: &Vec<Entity>,
    space: WorkspaceId,
    display: Entity,
    fullscreened: &Vec<NativeFullscreenMarker>,
    strips: &mut Vec<AttachedStrip>,
)
    ensures
        attached_view(final(strips)@) == after_arrivals(
            windows@,
            space,
            display,
            fullscreened@,
            attached_view(old(strips)@),
        ),
{
    let ghost start = attached_view(strips@);
    let mut k: usize = 0;
    while k < windows.len()
        invariant
            k <= windows.len(),
            attached_view(strips@) == after_arrivals(
                windows@.take(k as int),
                space,
                display,
                fullscreened@,
                start,
            ),
        decreases windows.len() - k,
    {
        let window = windows[k];
        let ghost before = attached_view(strips@);
        let ghost f = after_arrival(window, space, display, fullscreened@);
        let mut i: usize = 0;
        while i < strips.len()
            invariant
                i <= strips.len(),
                strips.len() == before.len(),
                f == after_arrival(window, space, display, fullscreened@),
                forall|j: int| 0 <= j < i ==> (#[trigger] strips@[j])@ == f(before[j]),
                forall|j: int| i <= j < strips.len() ==> (#[trigger] strips@[j])@ == before[j],
            decreases strips.len() - i,
        {
            assert(strips@[i as int]@ == before[i as int]);
            let here = strips[i].strip.id() == space && strips[i].parent == display;
            strips[i].strip.remove(window);
            if here {
                match return_index(fullscreened, space) {
                    Some(index) => strips[i].strip.insert_at(index, window),
                    None => strips[i].strip.append(window),
                }
            }
            i = i + 1;
        }
        proof {
            assert(attached_view(strips@) =~= before.map_values(f));
            assert(windows@.take(k + 1).drop_last() =~= windows@.take(k as int));
        }
        k = k + 1;
    }
    assert(windows@.take(k as int) =~= windows@);
}

/// The window to lay a strip out around: the focused one if it is on the strip, else
/// the topmost of the first column.
pub open spec fn centre_of(columns: Seq<ColumnModel>, focused: Option<Entity>) -> Option<Entity> {
    if focused is Some && layout::index(columns, focused->0) is Some {
        focused
    } else if columns.len() > 0 {
        columns[0].top()
    } else {
        None
    }
}

/// The window to lay a strip out around when it is shown: the focused one if it
/// is on the strip, else the topmost of the first column.
pub fn window_to_reshuffle(strip: &LayoutStrip, focused: Option<Entity>) -> (window: Option<Entity>)
    ensures
        window == centre_of(strip@, focused),
{
    if let Some(entity) = focused {
        if strip.index_of(entity).is_ok() {
            return Some(entity);
        }
    }
    match strip.get(0) {
        Ok(column) => column.top(),
        Err(_) => None,
    }
}

/// The strip that something stands for.
pub open spec fn stands_for(entity: Entity) -> spec_fn(AttachedModel) -> bool {
    |s: AttachedModel| s.entity == entity
}

/// Ids that are not among some others.
pub open spec fn is_none_of(ids: Seq<WinID>) -> spec_fn(WinID) -> bool {
    |id: WinID| !ids.contains(id)
}

/// Ids that are among some others.
pub open spec fn is_one_of(ids: Seq<WinID>) -> spec_fn(WinID) -> bool {
    |id: WinID| ids.contains(id)
}

/// What is known when a strip comes to be shown.
#[derive(Debug)]
pub struct ShownSpace {
    /// The windows that the system has on the space, where it says so.
    pub ids: Option<Vec<WinID>>,
    /// The windows that are laid out.
    pub managed: Vec<(WinID, Entity)>,
    /// All windows that are known, laid out or not.
    pub known: Vec<WinID>,
    /// The windows that the applications list.
    pub listed: Vec<WinID>,
    pub focused: Option<Entity>,
    /// The display that is used.
    pub display: Entity,
    pub fullscreened: Vec<NativeFullscreenMarker>,
}

impl ShownSpace {
    /// The windows that moved to the space: those that are laid out and not on its strip.
    pub open spec fn arriving(self, columns: Seq<ColumnModel>) -> Seq<Entity> {
        self.ids->0@.filter_map(arrives(self.managed@, columns))
    }

    /// The listed ids that are asked for again: those by which no window is known.
    pub open spec fn retried(self) -> Seq<WinID> {
        self.listed@.filter(is_one_of(self.unresolved()))
    }

    /// The windows that the strip is laid out around: those that moved to it, else its
    /// centre.
    pub open spec fn reshuffled(self, columns: Seq<ColumnModel>) -> Seq<Entity> {
        if self.arriving(columns).len() > 0 {
            self.arriving(columns)
        } else {
            match centre_of(columns, self.focused) {
                Some(window) => seq![window],
                None => Seq::empty(),
            }
        }
    }

    /// The ids on the space by which no window at all is known.
    pub open spec fn unresolved(self) -> Seq<WinID> {
        self.ids->0@.filter_map(unknown(self.managed@)).filter(is_none_of(self.known@))
    }
}

/// What is to be done once a strip is shown.
#[derive(Debug)]
pub struct Activation {
    /// The windows of applications that are to be added after all.
    pub retry: Vec<WinID>,
    /// The windows that the strip is laid out around, in order.
    pub reshuffle: Vec<Entity>,
}

/// The strip that is shown, where it is on a display and the system says what is on its
/// space.
pub open spec fn activated(shown: Entity, space: ShownSpace, strips: Seq<AttachedModel>) -> Option<
    AttachedModel,
> {
    if space.ids is Some {
        search::first_where(strips, stands_for(shown))
    } else {
        None
    }
}

/// The first strip that something stands for.
fn find_strip(strips: &Vec<AttachedStrip>, entity: Entity) -> (found: Option<usize>)
    ensures
        found is Some == search::first_index(attached_view(strips@), stands_for(entity)) is Some,
        found is Some ==> found->0 < strips.len() && search::first_index(
            attached_view(strips@),
            stands_for(entity),
        ) == Some(found->0 as int),
{
    let ghost view = attached_view(strips@);
    let ghost p = stands_for(entity);
    let mut i: usize = 0;
    while i < strips.len()
        invariant
            i <= strips.len(),
            view == attached_view(strips@),
            p == stands_for(entity),
            forall|j: int| 0 <= j < i ==> !p(#[trigger] view[j]),
        decreases strips.len() - i,
    {
        assert(view[i as int] == strips@[i as int]@);
        if strips[i].entity == entity {
            proof {
                search::lemma_first_index(view, p, i as int);
            }
            return Some(i);
        }
        i = i + 1;
    }
    proof {
        search::lemma_no_first_index(view, p);
    }
    None
}

/// The ids that are among some others, or those that are not.
fn select(ids: &Vec<WinID>, others: &Vec<WinID>, among: bool) -> (selected: Vec<WinID>)
    ensures
        among ==> selected@ == ids@.filter(is_one_of(others@)),
        !among ==> selected@ == ids@.filter(is_none_of(others@)),
{
    let ghost p = if among {
        is_one_of(others@)
    } else {
        is_none_of(others@)
    };
    let mut selected: Vec<WinID> = Vec::new();
    let mut i: usize = 0;
    assert(ids@.take(0).filter(p) =~= Seq::empty()) by {
        reveal(Seq::filter);
    }
    while i < ids.len()
        invariant
            i <= ids.len(),
            p == if among {
                is_one_of(others@)
            } else {
                is_none_of(others@)
            },
            selected@ == ids@.take(i as int).filter(p),
        decreases ids.len() - i,
    {
        proof {
            assert(ids@.take(i + 1) =~= ids@.take(i as int).push(ids@[i as int]));
            ids@.take(i as int).lemma_filter_push(ids@[i as int], p);
        }
        if has_number(others, ids[i]) == among {
            selected.push(ids[i]);
        }
        i = i + 1;
    }
    assert(ids@.take(i as int) =~= ids@);
    selected
}

/// Brings a strip up to date that comes to be shown. The windows that moved to its space
/// are put onto it, and it is laid out around each of them; where none did it is laid
/// out around the focused window or its first one. Of the ids by which no window is
/// laid out, those of a window that is known all the same are dropped, and what the
/// applications list under the others is to be added after all. A strip that is on no
/// display, or whose space the system says nothing of, stays as it is.
pub fn active_workspace(shown: Entity, space: &ShownSpace, strips: &mut Vec<AttachedStrip>) -> (
    activation: Option<Activation>)
    ensures
        activation is Some <==> activated(shown, *space, attached_view(old(strips)@)) is Some,
        activation is None ==> attached_view(final(strips)@) == attached_view(old(strips)@),
        activation matches Some(activation) ==> {
            let strip = activated(shown, *space, attached_view(old(strips)@))->0;
            let moved = space.arriving(strip.columns);
            &&& activation.retry@ == space.retried()
            &&& activation.reshuffle@ == space.reshuffled(strip.columns)
            &&& attached_view(final(strips)@) == after_arrivals(
                moved,
                strip.id,
                space.display,
                space.fullscreened@,
                attached_view(old(strips)@),
            )
        },
{
    let ghost view = attached_view(strips@);
    let i: usize = match find_strip(strips, shown) {
        Some(i) => i,
        None => return None,
    };
    let ids = match &space.ids {
        Some(ids) => ids,
        None => return None,
    };
    assert(view[i as int] == strips@[i as int]@);
    let (moved, unknown_ids) = windows_not_in_strip(ids, &space.managed, &strips[i].strip);
    let unresolved = select(&unknown_ids, &space.known, false);
    let retry = select(&space.listed, &unresolved, true);
    let centre = window_to_reshuffle(&strips[i].strip, space.focused);
    let id = strips[i].strip.id();
    receive_windows(&moved, id, space.display, &space.fullscreened, strips);
    let reshuffle = if moved.len() > 0 {
        moved
    } else {
        let mut reshuffle: Vec<Entity> = Vec::new();
        if let Some(window) = centre {
            reshuffle.push(window);
        }
        reshuffle
    };
    Some(Activation { retry, reshuffle })
}

/// How often a window is on a strip after one has moved to a space.
proof fn lemma_arrival(
    window: Entity,
    space: WorkspaceId,
    display: Entity,
    fullscreened: Seq<NativeFullscreenMarker>,
    strip: AttachedModel,
    x: Entity,
)
    requires
        laws::count(strip.columns, window) <= 1,
    ensures
        ({
            let after = after_arrival(window, space, display, fullscreened)(strip);
            &&& after.id == strip.id && after.parent == strip.parent && after.entity
                == strip.entity
            &&& laws::count(after.columns, x) == if x != window {
                laws::count(strip.columns, x)
            } else if strip_on(space, display)(strip) {
                1
            } else {
                0
            }
        }),
{
    let without = layout::removed(strip.columns, window);
    laws::law_remove_takes_only_that(strip.columns, window);
    if strip_on(space, display)(strip) {
        match search::first_where(fullscreened, came_from(space)) {
            Some(marker) => {
                laws::law_insert_adds_one(without, marker.previous_index as int, window);
            },
            None => {
                laws::law_insert_adds_one(without, without.len() as int, window);
                assert(layout::inserted(without, without.len() as int, window) == without.push(
                    ColumnModel::Single(window),
                ));
            },
        }
        assert(laws::count(without, x) == if x == window {
            0
        } else {
            laws::count(strip.columns, x)
        });
    }
}

/// A window that has moved to a space is afterwards on the strip of that space on the
/// display, once, and on no other; every other window is where it was, as often.
pub proof fn law_arrivals_are_on_their_strip(
    windows: Seq<Entity>,
    space: WorkspaceId,
    display: Entity,
    fullscreened: Seq<NativeFullscreenMarker>,
    strips: Seq<AttachedModel>,
    k: int,
    x: Entity,
)
    requires
        0 <= k < strips.len(),
        forall|e: Entity| #[trigger] laws::count(strips[k].columns, e) <= 1,
    ensures
        ({
            let after = after_arrivals(windows, space, display, fullscreened, strips);
            &&& after.len() == strips.len()
            &&& after[k].id == strips[k].id && after[k].parent == strips[k].parent
                && after[k].entity == strips[k].entity
            &&& laws::count(after[k].columns, x) == if !windows.contains(x) {
                laws::count(strips[k].columns, x)
            } else if strip_on(space, display)(strips[k]) {
                1
            } else {
                0
            }
        }),
    decreases windows.len(),
{
    if windows.len() > 0 {
        let front = windows.drop_last();
        let last = windows.last();
        law_arrivals_are_on_their_strip(front, space, display, fullscreened, strips, k, x);
        law_arrivals_are_on_their_strip(front, space, display, fullscreened, strips, k, last);
        let before = after_arrivals(front, space, display, fullscreened, strips);
        assert(laws::count(strips[k].columns, last) <= 1);
        lemma_arrival(last, space, display, fullscreened, before[k], x);
        assert(windows.contains(x) <==> front.contains(x) || x == last) by {
            if front.contains(x) {
                assert(windows[front.index_of(x)] == x);
            }
            if x == last {
                assert(windows[windows.len() - 1] == x);
            }
            if windows.contains(x) && x != last {
                assert(front[windows.index_of(x)] == x);
            }
        }
    }
}

/// A strip that is not empty is laid out around one of its windows.
pub proof fn law_shown_strip_is_laid_out(columns: Seq<ColumnModel>, focused: Option<Entity>)
    requires
        columns.len() > 0,
        columns[0].windows().len() > 0,
    ensures
        centre_of(columns, focused) is Some,
        layout::index(columns, centre_of(columns, focused)->0) is Some,
{
    let top = columns[0].windows()[0];
    assert(columns[0].holds(top));
    search::lemma_some_first_index(columns, layout::holder(top), 0);
}

// ---------------------------------------------------------------------------
// Strips without a display
// ---------------------------------------------------------------------------
/// A strip whose display is gone.
#[derive(Debug)]
pub struct Orphan {
    pub strip: LayoutStrip,
    pub entity: Entity,
    /// Nothing has come for it in time.
    pub timed_out: bool,
    /// It is on a display again.
    pub attached: bool,
}

/// What becomes of an orphan.
#[derive(Debug)]
pub enum OrphanAction {
    /// It is empty, and goes.
    Despawn(Entity),
    /// It is on a display again: it lives, and its windows are measured.
    Keep(Entity),
    /// Nothing came for it in time: its windows float.
    Rescue(Vec<Entity>),
    /// No display has its space yet.
    Wait,
    /// Its windows are on another strip now, whose windows are measured, and it
    /// goes.
    Merge { orphan: Entity, into: Entity },
    /// It goes to a display, and its windows are measured.
    Adopt { orphan: Entity, display: Entity },
}

/// What an [`OrphanAction`] says.
pub enum OrphanOutcome {
    Despawn(Entity),
    Keep(Entity),
    Rescue(Seq<Entity>),
    Wait,
    Merge { orphan: Entity, into: Entity },
    Adopt { orphan: Entity, display: Entity },
}

impl View for OrphanAction {
    type V = OrphanOutcome;

    open spec fn view(&self) -> OrphanOutcome {
        match *self {
            OrphanAction::Despawn(entity) => OrphanOutcome::Despawn(entity),
            OrphanAction::Keep(entity) => OrphanOutcome::Keep(entity),
            OrphanAction::Rescue(windows) => OrphanOutcome::Rescue(windows@),
            OrphanAction::Wait => OrphanOutcome::Wait,
            OrphanAction::Merge { orphan, into } => OrphanOutcome::Merge { orphan, into },
            OrphanAction::Adopt { orphan, display } => OrphanOutcome::Adopt { orphan, display },
        }
    }
}

/// The displays with this id.
pub open spec fn known_as(id: u32) -> spec_fn(KnownDisplay) -> bool {
    |d: KnownDisplay| d.id == id
}

/// The displays of the system that have a space and are known.
pub open spec fn owns(space: WorkspaceId, known: Seq<KnownDisplay>) -> spec_fn(
    ScannedDisplay,
) -> bool {
    |d: ScannedDisplay|
        d.spaces@.contains(space) && search::first_index(known, known_as(d.id)) is Some
}

/// The display that has a space: the first that the system says so of and that
/// is known.
pub open spec fn owner(
    space: WorkspaceId,
    present: Seq<ScannedDisplay>,
    known: Seq<KnownDisplay>,
) -> Option<Entity> {
    match search::first_where(present, owns(space, known)) {
        Some(display) => Some(search::first_where(known, known_as(display.id))->0.entity),
        None => None,
    }
}

/// The strips of a space on a display.
pub open spec fn strip_on(space: WorkspaceId, display: Entity) -> spec_fn(AttachedModel) -> bool {
    |s: AttachedModel| s.parent == display && s.id == space
}

/// A strip with more windows at its end, a column for each.
pub open spec fn appended(columns: Seq<ColumnModel>, windows: Seq<Entity>) -> Seq<ColumnModel> {
    columns + windows.map_values(|e: Entity| ColumnModel::Single(e))
}

/// What becomes of an orphan, and the strips after it.
pub open spec fn settled(
    orphan: Orphan,
    strips: Seq<AttachedModel>,
    known: Seq<KnownDisplay>,
    present: Seq<ScannedDisplay>,
) -> (OrphanOutcome, Seq<AttachedModel>) {
    let space = orphan.strip.spec_id();
    if orphan.strip@.len() == 0 {
        (OrphanOutcome::Despawn(orphan.entity), strips)
    } else if orphan.attached {
        (OrphanOutcome::Keep(orphan.entity), strips)
    } else if orphan.timed_out {
        (OrphanOutcome::Rescue(layout::all_windows(orphan.strip@)), strips)
    } else {
        match owner(space, present, known) {
            None => (OrphanOutcome::Wait, strips),
            Some(display) => match search::first_index(strips, strip_on(space, display)) {
                Some(i) => (
                    OrphanOutcome::Merge { orphan: orphan.entity, into: strips[i].entity },
                    strips.update(
                        i,
                        AttachedModel {
                            columns: appended(
                                strips[i].columns,
                                layout::all_windows(orphan.strip@),
                            ),
                            ..strips[i]
                        },
                    ),
                ),
                None => (OrphanOutcome::Adopt { orphan: orphan.entity, display }, strips),
            },
        }
    }
}

/// What becomes of the orphans in order, and the strips after it.
pub open spec fn settled_all(
    orphans: Seq<Orphan>,
    strips: Seq<AttachedModel>,
    known: Seq<KnownDisplay>,
    present: Seq<ScannedDisplay>,
) -> (Seq<OrphanOutcome>, Seq<AttachedModel>)
    decreases orphans.len(),
{
    if orphans.len() == 0 {
        (Seq::empty(), strips)
    } else {
        let (outcomes, before) = settled_all(orphans.drop_last(), strips, known, present);
        let (outcome, after) = settled(orphans.last(), before, known, present);
        (outcomes.push(outcome), after)
    }
}

fn has_space(spaces: &Vec<WorkspaceId>, space: WorkspaceId) -> (found: bool)
    ensures
        found == spaces@.contains(space),
{
    let mut i: usize = 0;
    while i < spaces.len()
        invariant
            i <= spaces.len(),
            forall|j: int| 0 <= j < i ==> #[trigger] spaces@[j] != space,
        decreases spaces.len() - i,
    {
        if spaces[i] == space {
            return true;
        }
        i = i + 1;
    }
    false
}

fn known_display(known: &Vec<KnownDisplay>, id: u32) -> (found: Option<Entity>)
    ensures
        found matches Some(entity) ==> search::first_index(known@, known_as(id)) is Some && entity
            == search::first_where(known@, known_as(id))->0.entity,
        found is None <==> search::first_index(known@, known_as(id)) is None,
{
    let mut i: usize = 0;
    while i < known.len()
        invariant
            i <= known.len(),
            forall|j: int| 0 <= j < i ==> (#[trigger] known@[j]).id != id,
        decreases known.len() - i,
    {
        if known[i].id == id {
            proof {
                search::lemma_first_index(known@, known_as(id), i as int);
            }
            return Some(known[i].entity);
        }
        i = i + 1;
    }
    proof {
        search::lemma_no_first_index(known@, known_as(id));
    }
    None
}

/// The display that has a space.
fn find_owner(
    space: WorkspaceId,
    present: &Vec<ScannedDisplay>,
    known: &Vec<KnownDisplay>,
) -> (display: Option<Entity>)
    ensures
        display == owner(space, present@, known@),
{
    let mut i: usize = 0;
    while i < present.len()
        invariant
            i <= present.len(),
            forall|j: int| 0 <= j < i ==> !owns(space, known@)(#[trigger] present@[j]),
        decreases present.len() - i,
    {
        if has_space(&present[i].spaces, space) {
            if let Some(entity) = known_display(known, present[i].id) {
                proof {
                    search::lemma_first_index(present@, owns(space, known@), i as int);
                }
                return Some(entity);
            }
        }
        i = i + 1;
    }
    proof {
        search::lemma_no_first_index(present@, owns(space, known@));
    }
    None
}

/// Decides what becomes of one orphan.
fn settle(
    orphan: &Orphan,
    strips: &mut Vec<AttachedStrip>,
    known: &Vec<KnownDisplay>,
    present: &Vec<ScannedDisplay>,
) -> (action: OrphanAction)
    ensures
        (action@, attached_view(final(strips)@)) == settled(
            *orphan,
            attached_view(old(strips)@),
            known@,
            present@,
        ),
{
    let ghost view = attached_view(strips@);
    if orphan.strip.len() == 0 {
        return OrphanAction::Despawn(orphan.entity);
    }
    if orphan.attached {
        return OrphanAction::Keep(orphan.entity);
    }
    if orphan.timed_out {
        return OrphanAction::Rescue(orphan.strip.all_windows());
    }
    let space: WorkspaceId = orphan.strip.id();
    let display = match find_owner(space, present, known) {
        Some(display) => display,
        None => return OrphanAction::Wait,
    };
    let ghost p = strip_on(space, display);
    let mut i: usize = 0;
    while i < strips.len() && !(strips[i].parent == display && strips[i].strip.id() == space)
        invariant
            i <= strips.len(),
            strips@ == old(strips)@,
            view == attached_view(strips@),
            p == strip_on(space, display),
            forall|j: int| 0 <= j < i ==> !p(#[trigger] view[j]),
        decreases strips.len() - i,
    {
        assert(view[i as int] == strips@[i as int]@);
        i = i + 1;
    }
    if i == strips.len() {
        proof {
            search::lemma_no_first_index(view, p);
        }
        return OrphanAction::Adopt { orphan: orphan.entity, display };
    }
    proof {
        assert(view[i as int] == strips@[i as int]@);
        search::lemma_first_index(view, p, i as int);
    }
    let windows = orphan.strip.all_windows();
    let ghost columns = strips@[i as int].strip@;
    let ghost single = |e: Entity| ColumnModel::Single(e);
    let mut k: usize = 0;
    assert(columns =~= columns + windows@.take(0).map_values(single));
    while k < windows.len()
        invariant
            k <= windows.len(),
            i < strips.len(),
            view == attached_view(old(strips)@),
            strips.len() == view.len(),
            single == (|e: Entity| ColumnModel::Single(e)),
            forall|j: int|
                0 <= j < strips.len() && j != i ==> (#[trigger] strips@[j]) == old(strips)@[j],
            strips@[i as int].entity == view[i as int].entity,
            strips@[i as int].parent == view[i as int].parent,
            strips@[i as int].strip.spec_id() == view[i as int].id,
            strips@[i as int].strip@ == columns + windows@.take(k as int).map_values(single),
        decreases windows.len() - k,
    {
        strips[i].strip.append(windows[k]);
        assert(strips@[i as int].strip@ =~= columns + windows@.take(k + 1).map_values(single));
        k = k + 1;
    }
    assert(windows@.take(k as int) =~= windows@);
    assert(attached_view(strips@) =~= settled(*orphan, view, known@, present@).1);
    OrphanAction::Merge { orphan: orphan.entity, into: strips[i].entity }
}

/// Decides what becomes of the strips whose display is gone.
pub fn find_orphaned_workspaces(
    orphans: &Vec<Orphan>,
    strips: &mut Vec<AttachedStrip>,
    known: &Vec<KnownDisplay>,
    present: &Vec<ScannedDisplay>,
) -> (actions: Vec<OrphanAction>)
    ensures
        (
            actions@.map_values(|a: OrphanAction| a@),
            attached_view(final(strips)@),
        ) == settled_all(orphans@, attached_view(old(strips)@), known@, present@),
{
    let ghost start = attached_view(strips@);
    let ghost f = |a: OrphanAction| a@;
    let mut actions: Vec<OrphanAction> = Vec::new();
    let mut i: usize = 0;
    assert(actions@.map_values(f) =~= Seq::empty());
    while i < orphans.len()
        invariant
            i <= orphans.len(),
            f == (|a: OrphanAction| a@),
            (actions@.map_values(f), attached_view(strips@)) == settled_all(
                orphans@.take(i as int),
                start,
                known@,
                present@,
            ),
        decreases orphans.len() - i,
    {
        assert(orphans@.take(i + 1).drop_last() =~= orphans@.take(i as int));
        let ghost earlier = actions@;
        let action = settle(&orphans[i], strips, known, present);
        actions.push(action);
        assert(actions@.map_values(f) =~= earlier.map_values(f).push(action@));
        i = i + 1;
    }
    assert(orphans@.take(i as int) =~= orphans@);
    actions
}

/// No window of an orphan is lost: they float, or they are on another strip, or
/// the orphan stays with them. Only an empty strip goes without more.
pub proof fn law_orphans_lose_no_window(
    orphan: Orphan,
    strips: Seq<AttachedModel>,
    known: Seq<KnownDisplay>,
    present: Seq<ScannedDisplay>,
)
    ensures
        settled(orphan, strips, known, present).0 is Despawn ==> orphan.strip@.len() == 0,
        settled(orphan, strips, known, present).0 matches OrphanOutcome::Rescue(windows)
            ==> windows == layout::all_windows(orphan.strip@),
        settled(orphan, strips, known, present).0 is Merge ==> exists|i: int|
            0 <= i < strips.len() && settled(orphan, strips, known, present).1[i].columns
                == #[trigger] appended(strips[i].columns, layout::all_windows(orphan.strip@)),
{
    let space = orphan.strip.spec_id();
    if let Some(display) = owner(space, present, known) {
        search::lemma_first_index_meaning(strips, strip_on(space, display));
        if let Some(i) = search::first_index(strips, strip_on(space, display)) {
            let grown = appended(strips[i].columns, layout::all_windows(orphan.strip@));
        }
    }
}

// ---------------------------------------------------------------------------
// Measuring the windows of a strip again
// ---------------------------------------------------------------------------
/// A window with its id, and whether it floats.
#[derive(Clone, Copy, Debug, PartialEq, Eq, Structural)]
pub struct WindowEntry {
    pub entity: Entity,
    pub id: WinID,
    pub floating: bool,
}

/// The windows with this id.
pub open spec fn has_id(id: WinID) -> spec_fn(WindowEntry) -> bool {
    |w: WindowEntry| w.id == id
}

/// The window with this id, if it floats and was not measured on the strip.
pub open spec fn floats_outside(measured: Seq<WinID>, windows: Seq<WindowEntry>) -> spec_fn(
    WinID,
) -> Option<Entity> {
    |id: WinID|
        match search::first_where(windows, has_id(id)) {
            Some(window) => if !measured.contains(id) && window.floating {
                Some(window.entity)
            } else {
                None
            },
            None => None,
        }
}

/// The floating windows of a space, which come to the corner of its display:
/// those that the system has there, are not measured on the strip, and float.
pub fn refresh_workspace_window_sizes(
    in_workspace: &Vec<WinID>,
    measured: &Vec<WinID>,
    windows: &Vec<WindowEntry>,
) -> (floating: Vec<Entity>)
    ensures
        floating@ == in_workspace@.filter_map(floats_outside(measured@, windows@)),
{
    let ghost f = floats_outside(measured@, windows@);
    let mut floating: Vec<Entity> = Vec::new();
    let mut i: usize = 0;
    assert(in_workspace@.take(0).filter_map(f) =~= Seq::empty());
    while i < in_workspace.len()
        invariant
            i <= in_workspace.len(),
            f == floats_outside(measured@, windows@),
            floating@ == in_workspace@.take(i as int).filter_map(f),
        decreases in_workspace.len() - i,
    {
        let id: WinID = in_workspace[i];
        proof {
            in_workspace@.lemma_filter_map_take_succ(f, i as int);
        }
        let mut k: usize = 0;
        while k < windows.len() && windows[k].id != id
            invariant
                k <= windows.len(),
                forall|j: int| 0 <= j < k ==> (#[trigger] windows@[j]).id != id,
            decreases windows.len() - k,
        {
            k = k + 1;
        }
        if k < windows.len() {
            proof {
                search::lemma_first_index(windows@, has_id(id), k as int);
            }
            if windows[k].floating && !has_win(measured, id) {
                floating.push(windows[k].entity);
            }
        } else {
            proof {
                search::lemma_no_first_index(windows@, has_id(id));
            }
        }
        assert(floating@ =~= in_workspace@.take(i + 1).filter_map(f));
        i = i + 1;
    }
    assert(in_workspace@.take(i as int) =~= in_workspace@);
    floating
}

fn has_win(ids: &Vec<WinID>, id: WinID) -> (found: bool)
    ensures
        found == ids@.contains(id),
{
    let mut i: usize = 0;
    while i < ids.len()
        invariant
            i <= ids.len(),
            forall|j: int| 0 <= j < i ==> #[trigger] ids@[j] != id,
        decreases ids.len() - i,
    {
        if ids[i] == id {
            return true;
        }
        i = i + 1;
    }
    false
}

} // verus!
