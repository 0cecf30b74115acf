//! What applications and the system say about windows: minimized, hidden, new,
//! moved away.
use vstd::prelude::*;

use crate::events::Event;
use crate::geometry::Entity;
use crate::layout;
use crate::layout::laws;
use crate::layout::{ColumnModel, LayoutStrip};
use crate::search;
use crate::triggers::managing;
use crate::triggers::managing::{VirtualModel, VirtualStrip};
use crate::triggers::{Unmanaged, WindowDisposition};
use crate::windowset::WinID;

verus! {

// ---------------------------------------------------------------------------
// Hiding and minimizing
// ---------------------------------------------------------------------------
/// A window, how it is treated, and why it is not laid out if it is not.
#[derive(Clone, Copy, Debug, PartialEq, Eq, Structural)]
pub struct WindowMark {
    pub entity: Entity,
    pub id: WinID,
    pub unmanaged: Option<Unmanaged>,
    pub disposition: Option<WindowDisposition>,
}

/// An application and its windows.
#[derive(Debug)]
pub struct ApplicationWindows {
    pub pid: i32,
    pub windows: Vec<Entity>,
}

/// Windows with this number.
pub open spec fn has_id(id: WinID) -> spec_fn(WindowMark) -> bool {
    |w: WindowMark| w.id == id
}

/// The window that this handle stands for.
pub open spec fn is_window(entity: Entity) -> spec_fn(WindowMark) -> bool {
    |w: WindowMark| w.entity == entity
}

/// Applications with this process.
pub open spec fn has_pid(pid: i32) -> spec_fn(ApplicationWindows) -> bool {
    |a: ApplicationWindows| a.pid == pid
}

/// A window gets this mark, or loses its mark.
pub type MarkChange = (Entity, Option<Unmanaged>);

/// A window of an application that is hidden goes with it if it is laid out.
/// Those that float, are minimized or are left alone stay what they are.
pub open spec fn hides(window: WindowMark) -> bool {
    window.disposition == Some(WindowDisposition::Managed) && window.unmanaged is None
}

/// A window of an application that is shown comes back if it went with it.
pub open spec fn shows(window: WindowMark) -> bool {
    window.unmanaged == Some(Unmanaged::Hidden)
}

/// What happens to one window of an application that is hidden.
pub open spec fn hide_change(windows: Seq<WindowMark>) -> spec_fn(Entity) -> Option<MarkChange> {
    |entity: Entity|
        match search::first_where(windows, is_window(entity)) {
            Some(window) => if hides(window) {
                Some((entity, Some(Unmanaged::Hidden)))
            } else {
                None
            },
            None => None,
        }
}

/// What happens to one window of an application that is shown.
pub open spec fn show_change(windows: Seq<WindowMark>) -> spec_fn(Entity) -> Option<MarkChange> {
    |entity: Entity|
        match search::first_where(windows, is_window(entity)) {
            Some(window) => if shows(window) {
                Some((entity, None))
            } else {
                None
            },
            None => None,
        }
}

/// What a message changes.
pub open spec fn mark_changes(
    event: Event,
    windows: Seq<WindowMark>,
    applications: Seq<ApplicationWindows>,
) -> Seq<MarkChange> {
    match event {
        Event::WindowMinimized { window_id } => match search::first_where(
            windows,
            has_id(window_id),
        ) {
            Some(window) => seq![(window.entity, Some(Unmanaged::Minimized))],
            None => Seq::empty(),
        },
        Event::WindowDeminimized { window_id } => match search::first_where(
            windows,
            has_id(window_id),
        ) {
            Some(window) => if window.unmanaged == Some(Unmanaged::Minimized)
                && window.disposition is Some {
                seq![(window.entity, window.disposition->0.spec_unmanaged())]
            } else {
                Seq::empty()
            },
            None => Seq::empty(),
        },
        Event::ApplicationHidden { pid } => match search::first_where(applications, has_pid(pid)) {
            Some(application) => application.windows@.filter_map(hide_change(windows)),
            None => Seq::empty(),
        },
        Event::ApplicationVisible { pid } => match search::first_where(
            applications,
            has_pid(pid),
        ) {
            Some(application) => application.windows@.filter_map(show_change(windows)),
            None => Seq::empty(),
        },
        _ => Seq::empty(),
    }
}

/// The window with a number.
fn find_id(windows: &Vec<WindowMark>, id: WinID) -> (found: Option<WindowMark>)
    ensures
        found == search::first_where(windows@, has_id(id)),
{
    let ghost p = has_id(id);
    let mut i: usize = 0;
    while i < windows.len()
        invariant
            i <= windows.len(),
            p == has_id(id),
            forall|j: int| 0 <= j < i ==> !p(#[trigger] windows@[j]),
        decreases windows.len() - i,
    {
        if windows[i].id == id {
            proof {
                search::lemma_first_index(windows@, p, i as int);
            }
            return Some(windows[i]);
        }
        i = i + 1;
    }
    proof {
        search::lemma_no_first_index(windows@, p);
    }
    None
}

/// The window that a handle stands for.
fn find_window(windows: &Vec<WindowMark>, entity: Entity) -> (found: Option<WindowMark>)
    ensures
        found == search::first_where(windows@, is_window(entity)),
{
    let ghost p = is_window(entity);
    let mut i: usize = 0;
    while i < windows.len()
        invariant
            i <= windows.len(),
            p == is_window(entity),
            forall|j: int| 0 <= j < i ==> !p(#[trigger] windows@[j]),
        decreases windows.len() - i,
    {
        if windows[i].entity == entity {
            proof {
                search::lemma_first_index(windows@, p, i as int);
            }
            return Some(windows[i]);
        }
        i = i + 1;
    }
    proof {
        search::lemma_no_first_index(windows@, p);
    }
    None
}

/// The application with a process.
fn find_application(applications: &Vec<ApplicationWindows>, pid: i32) -> (found: Option<usize>)
    ensures
        found is Some == search::first_index(applications@, has_pid(pid)) is Some,
        found is Some ==> found->0 < applications.len() && search::first_index(
            applications@,
            has_pid(pid),
        ) == Some(found->0 as int),
{
    let ghost p = has_pid(pid);
    let mut i: usize = 0;
    while i < applications.len()
        invariant
            i <= applications.len(),
            p == has_pid(pid),
            forall|j: int| 0 <= j < i ==> !p(#[trigger] applications@[j]),
        decreases applications.len() - i,
    {
        if applications[i].pid == pid {
            proof {
                search::lemma_first_index(applications@, p, i as int);
            }
            return Some(i);
        }
        i = i + 1;
    }
    proof {
        search::lemma_no_first_index(applications@, p);
    }
    None
}

/// What hiding changes for some windows.
fn hide_all(children: &Vec<Entity>, windows: &Vec<WindowMark>) -> (changes: Vec<MarkChange>)
    ensures
        changes@ == children@.filter_map(hide_change(windows@)),
{
    let ghost f = hide_change(windows@);
    let mut changes: Vec<MarkChange> = Vec::new();
    let mut i: usize = 0;
    while i < children.len()
        invariant
            i <= children.len(),
            f == hide_change(windows@),
            changes@ == children@.take(i as int).filter_map(f),
        decreases children.len() - i,
    {
        proof {
            children@.lemma_filter_map_take_succ(f, i as int);
        }
        if let Some(window) = find_window(windows, children[i]) {
            if let (Some(WindowDisposition::Managed), None) = (window.disposition, window.unmanaged) {
                changes.push((children[i], Some(Unmanaged::Hidden)));
            }
        }
        i = i + 1;
    }
    assert(children@.take(i as int) == children@);
    changes
}

/// What showing changes for some windows.
fn show_all(children: &Vec<Entity>, windows: &Vec<WindowMark>) -> (changes: Vec<MarkChange>)
    ensures
        changes@ == children@.filter_map(show_change(windows@)),
{
    let ghost f = show_change(windows@);
    let mut changes: Vec<MarkChange> = Vec::new();
    let mut i: usize = 0;
    while i < children.len()
        invariant
            i <= children.len(),
            f == show_change(windows@),
            changes@ == children@.take(i as int).filter_map(f),
        decreases children.len() - i,
    {
        proof {
            children@.lemma_filter_map_take_succ(f, i as int);
        }
        if let Some(window) = find_window(windows, children[i]) {
            if let Some(Unmanaged::Hidden) = window.unmanaged {
                changes.push((children[i], None));
            }
        }
        i = i + 1;
    }
    assert(children@.take(i as int) == children@);
    changes
}

/// The marks that a message changes, in order: a minimized window is marked and
/// a restored one is treated as before; the windows of an application that is
/// hidden or shown go and come with it.
pub fn dispatch_application_messages(
    event: &Event,
    windows: &Vec<WindowMark>,
    applications: &Vec<ApplicationWindows>,
) -> (changes: Vec<MarkChange>)
    ensures
        changes@ == mark_changes(*event, windows@, applications@),
{
    let mut changes: Vec<MarkChange> = Vec::new();
    match event {
        Event::WindowMinimized { window_id } => {
            if let Some(window) = find_id(windows, *window_id) {
                changes.push((window.entity, Some(Unmanaged::Minimized)));
            }
        },
        Event::WindowDeminimized { window_id } => {
            if let Some(window) = find_id(windows, *window_id) {
                if let (Some(Unmanaged::Minimized), Some(disposition)) = (
                    window.unmanaged,
                    window.disposition,
                ) {
                    changes.push((window.entity, disposition.unmanaged()));
                }
            }
        },
        Event::ApplicationHidden { pid } => {
            if let Some(i) = find_application(applications, *pid) {
                return hide_all(&applications[i].windows, windows);
            }
        },
        Event::ApplicationVisible { pid } => {
            if let Some(i) = find_application(applications, *pid) {
                return show_all(&applications[i].windows, windows);
            }
        },
        _ => {},
    }
    assert(changes@ =~= mark_changes(*event, windows@, applications@));
    changes
}

/// A window with another mark.
pub open spec fn remarked(window: WindowMark, unmanaged: Option<Unmanaged>) -> WindowMark {
    WindowMark { unmanaged, ..window }
}

/// Showing an application undoes hiding it: a window that went with it comes
/// back as it was, and one that did not is left alone.
pub proof fn law_showing_undoes_hiding(window: WindowMark)
    requires
        window.unmanaged != Some(Unmanaged::Hidden),
    ensures
        hides(window) ==> shows(remarked(window, Some(Unmanaged::Hidden))) && remarked(
            remarked(window, Some(Unmanaged::Hidden)),
            None,
        ) == window,
        !hides(window) ==> !shows(window),
{
}

/// Restoring a minimized window undoes minimizing it, if its mark was the one
/// that its kind has.
pub proof fn law_restoring_undoes_minimizing(
    windows: Seq<WindowMark>,
    applications: Seq<ApplicationWindows>,
    at: int,
)
    requires
        search::first_index(windows, has_id(windows[at].id)) == Some(at),
        windows[at].disposition is Some,
        windows[at].unmanaged == windows[at].disposition->0.spec_unmanaged(),
        0 <= at < windows.len(),
    ensures
        ({
            let window = windows[at];
            let after = windows.update(at, remarked(window, Some(Unmanaged::Minimized)));
            let minimized = Event::WindowMinimized { window_id: window.id };
            let restored = Event::WindowDeminimized { window_id: window.id };
            &&& mark_changes(minimized, windows, applications) == seq![
                (window.entity, Some(Unmanaged::Minimized)),
            ]
            &&& mark_changes(restored, after, applications) == seq![
                (window.entity, window.unmanaged),
            ]
        }),
{
    let window = windows[at];
    let p = has_id(window.id);
    let after = windows.update(at, remarked(window, Some(Unmanaged::Minimized)));
    search::lemma_first_index_meaning(windows, p);
    assert forall|j: int| 0 <= j < at implies !p(#[trigger] after[j]) by {
        assert(!p(windows[j]));
    }
    search::lemma_first_index(after, p, at);
}

// ---------------------------------------------------------------------------
// Mission Control
// ---------------------------------------------------------------------------
/// A strip that may be scrolling.
#[derive(Debug)]
pub struct ScrollableStrip {
    pub strip: LayoutStrip,
    pub entity: Entity,
    pub active: bool,
    pub scrolling: bool,
}

/// What a [`ScrollableStrip`] holds.
pub struct ScrollableModel {
    pub columns: Seq<ColumnModel>,
    pub entity: Entity,
    pub active: bool,
    pub scrolling: bool,
}

impl View for ScrollableStrip {
    type V = ScrollableModel;

    open spec fn view(&self) -> ScrollableModel {
        ScrollableModel {
            columns: self.strip@,
            entity: self.entity,
            active: self.active,
            scrolling: self.scrolling,
        }
    }
}

/// What some strips hold.
pub open spec fn scrollable_view(strips: Seq<ScrollableStrip>) -> Seq<ScrollableModel> {
    strips.map_values(|s: ScrollableStrip| s@)
}

/// The event opens Mission Control.
pub open spec fn opens_mission_control(event: Event) -> bool {
    event is MissionControlShowAllWindows || event is MissionControlShowFrontWindows || event
        is MissionControlShowDesktop
}

/// The strip scrolls.
pub open spec fn scrolls() -> spec_fn(ScrollableModel) -> Option<Entity> {
    |s: ScrollableModel|
        if s.scrolling {
            Some(s.entity)
        } else {
            None
        }
}

/// The strip is shown.
pub open spec fn shown() -> spec_fn(ScrollableModel) -> bool {
    |s: ScrollableModel| s.active
}

/// The entry of a window.
pub open spec fn is_entry(entity: Entity) -> spec_fn((Entity, WinID)) -> bool {
    |w: (Entity, WinID)| w.0 == entity
}

/// The number of a window.
pub open spec fn number_of(windows: Seq<(Entity, WinID)>, entity: Entity) -> Option<WinID> {
    match search::first_where(windows, is_entry(entity)) {
        Some(w) => Some(w.1),
        None => None,
    }
}

/// The window is known and is not among those that are present.
pub open spec fn left_space(windows: Seq<(Entity, WinID)>, present: Seq<WinID>) -> spec_fn(
    Entity,
) -> bool {
    |entity: Entity|
        number_of(windows, entity) is Some && !present.contains(number_of(windows, entity)->0)
}

/// The strips after Mission Control closes: the windows that left the space are
/// off the strip that is shown.
pub open spec fn after_mission_control(
    strips: Seq<ScrollableModel>,
    windows: Seq<(Entity, WinID)>,
    present: Option<Seq<WinID>>,
) -> Seq<ScrollableModel> {
    match (search::first_index(strips, shown()), present) {
        (Some(i), Some(present)) => strips.update(
            i,
            ScrollableModel {
                columns: layout::without_all(
                    strips[i].columns,
                    layout::all_windows(strips[i].columns).filter(left_space(windows, present)),
                ),
                ..strips[i]
            },
        ),
        _ => strips,
    }
}

/// The number of a window.
fn find_number(windows: &Vec<(Entity, WinID)>, entity: Entity) -> (number: Option<WinID>)
    ensures
        number == number_of(windows@, entity),
{
    let ghost p = is_entry(entity);
    let mut i: usize = 0;
    while i < windows.len()
        invariant
            i <= windows.len(),
            p == is_entry(entity),
            forall|j: int| 0 <= j < i ==> !p(#[trigger] windows@[j]),
        decreases windows.len() - i,
    {
        let (window, id) = windows[i];
        if window == entity {
            proof {
                search::lemma_first_index(windows@, p, i as int);
            }
            return Some(id);
        }
        i = i + 1;
    }
    proof {
        search::lemma_no_first_index(windows@, p);
    }
    None
}

/// Whether a list has a number.
pub(crate) fn has_number(numbers: &Vec<WinID>, number: WinID) -> (found: bool)
    ensures
        found == numbers@.contains(number),
{
    let mut i: usize = 0;
    while i < numbers.len()
        invariant
            i <= numbers.len(),
            forall|j: int| 0 <= j < i ==> numbers@[j] != number,
        decreases numbers.len() - i,
    {
        if numbers[i] == number {
            return true;
        }
        i = i + 1;
    }
    false
}

/// Takes the windows that left the space off a strip.
fn drop_moved(strip: &mut LayoutStrip, windows: &Vec<(Entity, WinID)>, present: &Vec<WinID>)
    ensures
        final(strip)@ == layout::without_all(
            old(strip)@,
            layout::all_windows(old(strip)@).filter(left_space(windows@, present@)),
        ),
        final(strip).spec_id() == old(strip).spec_id(),
{
    let ghost start = strip@;
    let ghost p = left_space(windows@, present@);
    let all = strip.all_windows();
    let mut i: usize = 0;
    proof {
        reveal(Seq::filter);
        assert(all@.take(0).filter(p) =~= Seq::empty());
    }
    while i < all.len()
        invariant
            i <= all.len(),
            p == left_space(windows@, present@),
            strip@ == layout::without_all(start, all@.take(i as int).filter(p)),
            strip.spec_id() == old(strip).spec_id(),
        decreases all.len() - i,
    {
        let ghost before = all@.take(i as int).filter(p);
        proof {
            assert(all@.take(i + 1) =~= all@.take(i as int).push(all@[i as int]));
            all@.take(i as int).lemma_filter_push(all@[i as int], p);
        }
        let gone = match find_number(windows, all[i]) {
            Some(id) => !has_number(present, id),
            None => false,
        };
        if gone {
            strip.remove(all[i]);
            assert(before.push(all@[i as int]).drop_last() =~= before);
        }
        i = i + 1;
    }
    assert(all@.take(i as int) =~= all@);
}

/// Whether Mission Control is open after an event.
pub open spec fn mission_control_after(event: Event, active: bool) -> bool {
    if opens_mission_control(event) {
        true
    } else if event is MissionControlExit {
        false
    } else {
        active
    }
}

/// The strips that stop scrolling with an event.
pub open spec fn stopped_by(event: Event, strips: Seq<ScrollableModel>) -> Seq<Entity> {
    if opens_mission_control(event) {
        strips.filter_map(scrolls())
    } else {
        Seq::empty()
    }
}

/// The strips after an event.
pub open spec fn strips_after(
    event: Event,
    strips: Seq<ScrollableModel>,
    windows: Seq<(Entity, WinID)>,
    present: Option<Seq<WinID>>,
) -> Seq<ScrollableModel> {
    if event is MissionControlExit {
        after_mission_control(strips, windows, present)
    } else {
        strips
    }
}

/// Notes that Mission Control opens or closes. While it opens, scrolling stops:
/// the result is the strips that scrolled. When it closes, the windows that were
/// moved away with it are taken off the strip that is shown; `present` are those
/// that are still on its space, where the system says so.
pub fn mission_control_trigger(
    event: &Event,
    mission_control_active: &mut bool,
    strips: &mut Vec<ScrollableStrip>,
    windows: &Vec<(Entity, WinID)>,
    present: Option<&Vec<WinID>>,
) -> (stopped: Vec<Entity>)
    ensures
        *final(mission_control_active) == mission_control_after(
            *event,
            *old(mission_control_active),
        ),
        stopped@ == stopped_by(*event, scrollable_view(old(strips)@)),
        scrollable_view(final(strips)@) == strips_after(
            *event,
            scrollable_view(old(strips)@),
            windows@,
            match present {
                Some(present) => Some(present@),
                None => None,
            },
        ),
        final(strips)@.len() == old(strips)@.len(),
        forall|i: int|
            0 <= i < old(strips)@.len() ==> (#[trigger] final(strips)@[i]).strip.spec_id()
                == old(strips)@[i].strip.spec_id(),
{
    let ghost view = scrollable_view(strips@);
    let mut stopped: Vec<Entity> = Vec::new();
    match event {
        Event::MissionControlShowAllWindows
        | Event::MissionControlShowFrontWindows
        | Event::MissionControlShowDesktop => {
            *mission_control_active = true;
            let ghost f = scrolls();
            let mut i: usize = 0;
            while i < strips.len()
                invariant
                    i <= strips.len(),
                    view == scrollable_view(strips@),
                    f == scrolls(),
                    stopped@ == view.take(i as int).filter_map(f),
                decreases strips.len() - i,
            {
                proof {
                    assert(view[i as int] == strips@[i as int]@);
                    view.lemma_filter_map_take_succ(f, i as int);
                }
                if strips[i].scrolling {
                    stopped.push(strips[i].entity);
                }
                i = i + 1;
            }
            assert(view.take(i as int) == view);
        },
        Event::MissionControlExit => {
            *mission_control_active = false;
            if let Some(i) = find_shown(strips) {
                if let Some(present) = present {
                    assert(view[i as int] == strips@[i as int]@);
                    drop_moved(&mut strips[i].strip, windows, present);
                    assert(scrollable_view(strips@) =~= after_mission_control(
                        view,
                        windows@,
                        Some(present@),
                    ));
                }
            }
        },
        _ => {},
    }
    stopped
}

/// The first strip that is shown.
fn find_shown(strips: &Vec<ScrollableStrip>) -> (found: Option<usize>)
    ensures
        found is Some == search::first_index(scrollable_view(strips@), shown()) is Some,
        found is Some ==> found->0 < strips.len() && search::first_index(
            scrollable_view(strips@),
            shown(),
        ) == Some(found->0 as int),
{
    let ghost view = scrollable_view(strips@);
    let ghost p = shown();
    let mut i: usize = 0;
    while i < strips.len()
        invariant
            i <= strips.len(),
            view == scrollable_view(strips@),
            p == shown(),
            forall|j: int| 0 <= j < i ==> !p(#[trigger] view[j]),
        decreases strips.len() - i,
    {
        assert(view[i as int] == strips@[i as int]@);
        if strips[i].active {
            proof {
                search::lemma_first_index(view, p, i as int);
            }
            return Some(i);
        }
        i = i + 1;
    }
    proof {
        search::lemma_no_first_index(view, p);
    }
    None
}

/// When Mission Control closes, the windows that left the space are off the
/// strip that is shown, and no other is.
pub proof fn law_moved_windows_leave_the_strip(
    columns: Seq<ColumnModel>,
    windows: Seq<(Entity, WinID)>,
    present: Seq<WinID>,
    x: Entity,
)
    requires
        forall|e: Entity| #[trigger] laws::count(columns, e) <= 1,
    ensures
        laws::count(
            layout::without_all(
                columns,
                layout::all_windows(columns).filter(left_space(windows, present)),
            ),
            x,
        ) == if left_space(windows, present)(x) {
            0
        } else {
            laws::count(columns, x)
        },
{
    let p = left_space(windows, present);
    let all = layout::all_windows(columns);
    let gone = all.filter(p);
    laws::lemma_without_all(columns, gone, x);
    laws::lemma_all_windows_count(columns, x);
    if gone.contains(x) {
        all.lemma_filter_pred(p, gone.index_of(x));
    } else if p(x) && laws::count(columns, x) > 0 {
        all.lemma_filter_contains(p, all.index_of(x));
    }
}

// ---------------------------------------------------------------------------
// New windows
// ---------------------------------------------------------------------------
/// A window that has just appeared.
#[derive(Clone, Copy, Debug, PartialEq, Eq, Structural)]
pub struct NewWindow {
    pub id: WinID,
    /// The process that it belongs to, if the window says so.
    pub pid: Option<i32>,
}

/// The application that a new window is added to, unless the window is known or
/// its application is not.
pub open spec fn adopts(known: Seq<WinID>, applications: Seq<(i32, Entity)>) -> spec_fn(
    NewWindow,
) -> Option<(WinID, Entity)> {
    |window: NewWindow|
        if known.contains(window.id) || window.pid is None {
            None
        } else {
            match search::first_where(applications, runs_as(window.pid->0)) {
                Some(application) => Some((window.id, application.1)),
                None => None,
            }
        }
}

/// Applications of a process.
pub open spec fn runs_as(pid: i32) -> spec_fn((i32, Entity)) -> bool {
    |a: (i32, Entity)| a.0 == pid
}

/// The application of a process.
fn find_owner(applications: &Vec<(i32, Entity)>, pid: i32) -> (owner: Option<Entity>)
    ensures
        owner == match search::first_where(applications@, runs_as(pid)) {
            Some(application) => Some(application.1),
            None => None,
        },
{
    let ghost p = runs_as(pid);
    let mut i: usize = 0;
    while i < applications.len()
        invariant
            i <= applications.len(),
            p == runs_as(pid),
            forall|j: int| 0 <= j < i ==> !p(#[trigger] applications@[j]),
        decreases applications.len() - i,
    {
        let (own, entity) = applications[i];
        if own == pid {
            proof {
                search::lemma_first_index(applications@, p, i as int);
            }
            return Some(entity);
        }
        i = i + 1;
    }
    proof {
        search::lemma_no_first_index(applications@, p);
    }
    None
}

/// The new windows that are taken over, the last one first.
pub open spec fn adopted(
    new_windows: Seq<NewWindow>,
    known: Seq<WinID>,
    applications: Seq<(i32, Entity)>,
) -> Seq<(WinID, Entity)> {
    new_windows.reverse().filter_map(adopts(known, applications))
}

/// The new windows that are added, each with its application, the last one
/// first. Known windows, and those whose process or application cannot be told,
/// are passed over.
pub fn spawn_window_trigger(
    new_windows: &Vec<NewWindow>,
    known: &Vec<WinID>,
    applications: &Vec<(i32, Entity)>,
) -> (added: Vec<(WinID, Entity)>)
    ensures
        added@ == adopted(new_windows@, known@, applications@),
{
    let ghost all = new_windows@.reverse();
    let ghost f = adopts(known@, applications@);
    let mut added: Vec<(WinID, Entity)> = Vec::new();
    let mut i: usize = 0;
    while i < new_windows.len()
        invariant
            i <= new_windows.len(),
            all == new_windows@.reverse(),
            f == adopts(known@, applications@),
            added@ == all.take(i as int).filter_map(f),
        decreases new_windows.len() - i,
    {
        let window = new_windows[new_windows.len() - 1 - i];
        proof {
            assert(all[i as int] == window);
            all.lemma_filter_map_take_succ(f, i as int);
        }
        if !has_number(known, window.id) {
            if let Some(pid) = window.pid {
                if let Some(owner) = find_owner(applications, pid) {
                    added.push((window.id, owner));
                }
            }
        }
        i = i + 1;
    }
    assert(all.take(i as int) == all);
    added
}

/// A window that is to get its place for the first time.
#[derive(Clone, Copy, Debug, PartialEq, Eq, Structural)]
pub struct Newcomer {
    pub entity: Entity,
    pub disposition: WindowDisposition,
    /// It shares a tab with others already.
    pub tabbed: bool,
    /// It is put where it was in the last session, elsewhere.
    pub restoring: bool,
    /// The column that a rule puts it at.
    pub insertion: Option<usize>,
    /// A rule says that it does not take the focus.
    pub dont_focus: bool,
}

/// Who has the focus once a window has its place.
#[derive(Clone, Copy, Debug, PartialEq, Eq, Structural)]
pub enum NewFocus {
    Unchanged,
    /// The window is announced as the one with the focus.
    Announce,
    /// The window that had the focus keeps it.
    Keep(Entity),
}

/// What follows once a window has its place.
#[derive(Clone, Copy, Debug, PartialEq, Eq, Structural)]
pub struct Welcome {
    /// The mark of a window that is not laid out.
    pub mark: Option<Unmanaged>,
    /// Its application is to be observed.
    pub observe: bool,
    pub focus: NewFocus,
}

/// Where a window goes on a strip: where a rule puts it, else to the right of
/// the window with the focus, else to the end.
pub open spec fn place_for(
    columns: Seq<ColumnModel>,
    insertion: Option<usize>,
    focused: Option<Entity>,
) -> int {
    if insertion is Some {
        insertion->0 as int
    } else if focused is Some && layout::index(columns, focused->0) is Some {
        layout::index(columns, focused->0)->0 + 1
    } else {
        columns.len() as int
    }
}

/// The strips once a window has its place: one that is laid out is on the strip
/// that is shown, unless it has a place already; another is off its strip.
pub open spec fn after_welcome(
    strips: Seq<VirtualModel>,
    window: Newcomer,
    focused: Option<Entity>,
) -> Seq<VirtualModel> {
    let managed = window.disposition == WindowDisposition::Managed;
    let holder = search::first_index(strips, managing::strip_with(window.entity));
    let shown = search::first_index(strips, managing::is_shown());
    if window.tabbed || managed && window.restoring {
        strips
    } else if !managed {
        managing::after_removal(strips, window.entity)
    } else if holder is None && shown is Some {
        managing::with_columns(
            strips,
            shown->0,
            layout::inserted(
                strips[shown->0].columns,
                place_for(strips[shown->0].columns, window.insertion, focused),
                window.entity,
            ),
        )
    } else {
        strips
    }
}

/// What follows once a window has its place.
pub open spec fn welcome(window: Newcomer, focused: Option<Entity>, initializing: bool) -> Welcome {
    let managed = window.disposition == WindowDisposition::Managed;
    if window.tabbed {
        Welcome { mark: None, observe: false, focus: NewFocus::Unchanged }
    } else {
        Welcome {
            mark: window.disposition.spec_unmanaged(),
            observe: managed,
            focus: if initializing || managed && window.restoring {
                NewFocus::Unchanged
            } else if !window.dont_focus {
                NewFocus::Announce
            } else if managed && focused is Some {
                NewFocus::Keep(focused->0)
            } else {
                NewFocus::Unchanged
            },
        }
    }
}

/// Gives a new window its place on the strips, and says what follows.
pub fn apply_window_positions(
    window: &Newcomer,
    strips: &mut Vec<VirtualStrip>,
    focused: Option<Entity>,
    initializing: bool,
) -> (next: Welcome)
    ensures
        managing::strips_view(final(strips)@) == after_welcome(
            managing::strips_view(old(strips)@),
            *window,
            focused,
        ),
        next == welcome(*window, focused, initializing),
{
    if window.tabbed {
        return Welcome { mark: None, observe: false, focus: NewFocus::Unchanged };
    }
    let ghost before = managing::strips_view(strips@);
    let mark = window.disposition.unmanaged();
    let managed = window.disposition == WindowDisposition::Managed;
    if managed && window.restoring {
        return Welcome { mark, observe: true, focus: NewFocus::Unchanged };
    }
    if !managed {
        managing::window_removal_trigger(window.entity, strips);
        let focus = if !initializing && !window.dont_focus {
            NewFocus::Announce
        } else {
            NewFocus::Unchanged
        };
        return Welcome { mark, observe: false, focus };
    }
    let holder = managing::find_holder(window.entity, strips);
    if holder.is_none() {
        if let Some(i) = managing::find_shown(strips) {
            assert(before[i as int] == strips@[i as int]@);
            let at: usize = match window.insertion {
                Some(index) => index,
                None => {
                    let len: usize = strips[i].strip.len();
                    match focused {
                        Some(other) => match strips[i].strip.index_of(other) {
                            Ok(index) => index + 1,
                            Err(_) => len,
                        },
                        None => len,
                    }
                },
            };
            strips[i].strip.insert_at(at, window.entity);
            assert(managing::strips_view(strips@) =~= after_welcome(before, *window, focused));
        }
    }
    let focus = if initializing {
        NewFocus::Unchanged
    } else if !window.dont_focus {
        NewFocus::Announce
    } else {
        match focused {
            Some(previous) => NewFocus::Keep(previous),
            None => NewFocus::Unchanged,
        }
    };
    Welcome { mark, observe: true, focus }
}

/// A window that is laid out and on no strip yet is on the strip that is shown
/// afterwards, once; all others are as they were, each as often.
pub proof fn law_new_window_is_placed_once(
    strips: Seq<VirtualModel>,
    window: Newcomer,
    focused: Option<Entity>,
    x: Entity,
)
    requires
        window.disposition == WindowDisposition::Managed,
        !window.tabbed && !window.restoring,
        search::first_index(strips, managing::strip_with(window.entity)) is None,
        search::first_index(strips, managing::is_shown()) is Some,
    ensures
        ({
            let i = search::first_index(strips, managing::is_shown())->0;
            let after = after_welcome(strips, window, focused);
            &&& after.len() == strips.len()
            &&& forall|j: int| 0 <= j < strips.len() && j != i ==> after[j] == strips[j]
            &&& laws::count(after[i].columns, x) == laws::count(strips[i].columns, x)
                + laws::one_if(x)(window.entity)
        }),
{
    search::lemma_first_index_meaning(strips, managing::is_shown());
    let i = search::first_index(strips, managing::is_shown())->0;
    let columns = strips[i].columns;
    if focused is Some {
        search::lemma_first_index_meaning(columns, layout::holder(focused->0));
    }
    laws::law_insert_adds_one(
        columns,
        place_for(columns, window.insertion, focused),
        window.entity,
    );
}

} // verus!
