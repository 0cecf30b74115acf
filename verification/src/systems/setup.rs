//! The start: which displays, applications and windows there are.
use vstd::prelude::*;

use crate::config::Config;
use crate::events::{Event, ProcessSerialNumber};
use crate::geometry::{Entity, IVec2};
use crate::layout;
use crate::layout::laws;
use crate::layout::{ColumnModel, LayoutStrip, WorkspaceId};
use crate::layout_ops::WorkspaceStrip;
use crate::reconcile::{contains, ScannedDisplay};
use crate::search;
use crate::triggers::messages::has_number;
use crate::windowset::WinID;

verus! {

// ---------------------------------------------------------------------------
// The first look at the windows
// ---------------------------------------------------------------------------
/// A window that is on the space of a strip.
#[derive(Clone, Copy, Debug, PartialEq, Eq, Structural)]
pub struct SetupWindow {
    pub entity: Entity,
    pub minimized: bool,
}

/// The windows that are laid out.
pub open spec fn kept() -> spec_fn(SetupWindow) -> Option<Entity> {
    |w: SetupWindow|
        if w.minimized {
            None
        } else {
            Some(w.entity)
        }
}

/// The windows that are minimized.
pub open spec fn put_away() -> spec_fn(SetupWindow) -> Option<Entity> {
    |w: SetupWindow|
        if w.minimized {
            Some(w.entity)
        } else {
            None
        }
}

/// Windows that are not in a list.
pub open spec fn is_missing(windows: Seq<Entity>) -> spec_fn(Entity) -> bool {
    |e: Entity| !windows.contains(e)
}

/// The columns with those windows added, in order, that are not there yet.
pub open spec fn with_missing(columns: Seq<ColumnModel>, windows: Seq<Entity>) -> Seq<ColumnModel>
    decreases windows.len(),
{
    if windows.len() == 0 {
        columns
    } else {
        let before = with_missing(columns, windows.drop_last());
        if layout::index(before, windows.last()) is Some {
            before
        } else {
            before.push(ColumnModel::Single(windows.last()))
        }
    }
}

/// The columns with just these windows: the others go, those that are there stay
/// where they are, and the missing ones come to the end.
pub open spec fn refreshed(columns: Seq<ColumnModel>, windows: Seq<Entity>) -> Seq<ColumnModel> {
    with_missing(
        layout::without_all(columns, layout::all_windows(columns).filter(is_missing(windows))),
        windows,
    )
}

/// What comes of the first look at a strip.
#[derive(Debug)]
pub struct StripSetup {
    /// The windows that are to be marked as minimized.
    pub minimized: Vec<Entity>,
    /// The window that gets the focus and is raised.
    pub focus: Option<Entity>,
}

/// The columns of a strip after the first look, if the windows on its space can
/// be told.
pub open spec fn set_up(columns: Seq<ColumnModel>, present: Option<Vec<SetupWindow>>) -> Seq<
    ColumnModel,
> {
    match present {
        Some(windows) => refreshed(columns, windows@.filter_map(kept())),
        None => columns,
    }
}

/// What comes of the first look at a strip with these columns afterwards.
pub open spec fn is_setup(
    setup: StripSetup,
    active: bool,
    after: Seq<ColumnModel>,
    present: Option<Vec<SetupWindow>>,
) -> bool {
    match present {
        Some(windows) => {
            &&& setup.minimized@ == windows@.filter_map(put_away())
            &&& setup.focus == if active && after.len() > 0 {
                after[0].top()
            } else {
                None
            }
        },
        None => setup.minimized@ == Seq::<Entity>::empty() && setup.focus is None,
    }
}

/// Splits the windows of a space into those that are laid out and those that are
/// minimized.
fn sort_windows(windows: &Vec<SetupWindow>) -> (sorted: (Vec<Entity>, Vec<Entity>))
    ensures
        sorted.0@ == windows@.filter_map(kept()),
        sorted.1@ == windows@.filter_map(put_away()),
{
    let ghost f = kept();
    let ghost g = put_away();
    let mut keep: Vec<Entity> = Vec::new();
    let mut away: Vec<Entity> = Vec::new();
    let mut i: usize = 0;
    while i < windows.len()
        invariant
            i <= windows.len(),
            f == kept(),
            g == put_away(),
            keep@ == windows@.take(i as int).filter_map(f),
            away@ == windows@.take(i as int).filter_map(g),
        decreases windows.len() - i,
    {
        proof {
            windows@.lemma_filter_map_take_succ(f, i as int);
            windows@.lemma_filter_map_take_succ(g, i as int);
        }
        if windows[i].minimized {
            away.push(windows[i].entity);
        } else {
            keep.push(windows[i].entity);
        }
        i = i + 1;
    }
    assert(windows@.take(i as int) == windows@);
    (keep, away)
}

/// Takes the windows off a strip that are not among these.
fn drop_others(strip: &mut LayoutStrip, windows: &Vec<Entity>)
    ensures
        final(strip)@ == layout::without_all(
            old(strip)@,
            layout::all_windows(old(strip)@).filter(is_missing(windows@)),
        ),
        final(strip).spec_id() == old(strip).spec_id(),
{
    let ghost start = strip@;
    let ghost p = is_missing(windows@);
    let all = strip.all_windows();
    proof {
        reveal(Seq::filter);
        assert(all@.take(0).filter(p) =~= Seq::empty());
    }
    let mut i: usize = 0;
    while i < all.len()
        invariant
            i <= all.len(),
            p == is_missing(windows@),
            strip@ == layout::without_all(start, all@.take(i as int).filter(p)),
            strip.spec_id() == old(strip).spec_id(),
        decreases all.len() - i,
    {
        let ghost before = all@.take(i as int).filter(p);
        proof {
            assert(all@.take(i + 1) =~= all@.take(i as int).push(all@[i as int]));
            all@.take(i as int).lemma_filter_push(all@[i as int], p);
        }
        if !contains(windows, all[i]) {
            strip.remove(all[i]);
            assert(before.push(all@[i as int]).drop_last() =~= before);
        }
        i = i + 1;
    }
    assert(all@.take(i as int) =~= all@);
}

/// Adds the windows to a strip that are not on it.
fn append_missing(strip: &mut LayoutStrip, windows: &Vec<Entity>)
    ensures
        final(strip)@ == with_missing(old(strip)@, windows@),
        final(strip).spec_id() == old(strip).spec_id(),
{
    let ghost start = strip@;
    let mut i: usize = 0;
    while i < windows.len()
        invariant
            i <= windows.len(),
            strip@ == with_missing(start, windows@.take(i as int)),
            strip.spec_id() == old(strip).spec_id(),
        decreases windows.len() - i,
    {
        assert(windows@.take(i + 1).drop_last() =~= windows@.take(i as int));
        if strip.index_of(windows[i]).is_err() {
            strip.append(windows[i]);
        }
        i = i + 1;
    }
    assert(windows@.take(i as int) =~= windows@);
}

/// The first look at a strip.
fn set_up_strip(entry: &mut WorkspaceStrip, present: &Option<Vec<SetupWindow>>) -> (setup: StripSetup)
    ensures
        final(entry)@.columns == set_up(old(entry)@.columns, *present),
        final(entry)@.id == old(entry)@.id,
        final(entry)@.active == old(entry)@.active,
        is_setup(setup, old(entry)@.active, final(entry)@.columns, *present),
{
    match present {
        None => StripSetup { minimized: Vec::new(), focus: None },
        Some(windows) => {
            let (keep, minimized) = sort_windows(windows);
            drop_others(&mut entry.strip, &keep);
            append_missing(&mut entry.strip, &keep);
            let focus = if entry.active {
                match entry.strip.first() {
                    Ok(column) => column.top(),
                    Err(_) => None,
                }
            } else {
                None
            };
            StripSetup { minimized, focus }
        },
    }
}

/// Ends the start-up once nothing is pending any more: each strip gets just the
/// windows that are on its space and not minimized. `present` tells them for each
/// strip, where the system can. While something is pending nothing happens.
pub fn finish_setup(
    processes_pending: bool,
    searches_pending: bool,
    strips: &mut Vec<WorkspaceStrip>,
    present: &Vec<Option<Vec<SetupWindow>>>,
) -> (setups: Option<Vec<StripSetup>>)
    requires
        old(strips).len() == present.len(),
    ensures
        setups is None == (processes_pending || searches_pending),
        final(strips).len() == old(strips).len(),
        setups is None ==> final(strips)@ == old(strips)@,
        setups is Some ==> setups->0.len() == old(strips).len(),
        setups is Some ==> forall|i: int|
            0 <= i < old(strips).len() ==> {
                &&& (#[trigger] final(strips)@[i])@.columns == set_up(
                    old(strips)@[i]@.columns,
                    present@[i],
                )
                &&& final(strips)@[i]@.id == old(strips)@[i]@.id
                &&& final(strips)@[i]@.active == old(strips)@[i]@.active
                &&& is_setup(
                    setups->0@[i],
                    old(strips)@[i]@.active,
                    final(strips)@[i]@.columns,
                    present@[i],
                )
            },
{
    if processes_pending || searches_pending {
        return None;
    }
    let ghost start = strips@;
    let mut setups: Vec<StripSetup> = Vec::new();
    let mut i: usize = 0;
    while i < strips.len()
        invariant
            i <= strips.len(),
            strips.len() == start.len(),
            start == old(strips)@,
            strips.len() == present.len(),
            setups.len() == i,
            forall|j: int| i <= j < strips.len() ==> strips@[j] == start[j],
            forall|j: int|
                0 <= j < i ==> {
                    &&& (#[trigger] strips@[j])@.columns == set_up(start[j]@.columns, present@[j])
                    &&& strips@[j]@.id == start[j]@.id
                    &&& strips@[j]@.active == start[j]@.active
                    &&& is_setup(setups@[j], start[j]@.active, strips@[j]@.columns, present@[j])
                },
        decreases strips.len() - i,
    {
        let setup = set_up_strip(&mut strips[i], &present[i]);
        setups.push(setup);
        i = i + 1;
    }
    Some(setups)
}

/// How often windows are on a strip after the missing ones are added.
proof fn lemma_with_missing(columns: Seq<ColumnModel>, windows: Seq<Entity>, x: Entity)
    ensures
        laws::count(with_missing(columns, windows), x) == if laws::count(columns, x) == 0
            && windows.contains(x) {
            1
        } else {
            laws::count(columns, x)
        },
    decreases windows.len(),
{
    if windows.len() > 0 {
        let head = windows.drop_last();
        let last = windows.last();
        let before = with_missing(columns, head);
        lemma_with_missing(columns, head, x);
        laws::law_insert_adds_one(before, before.len() as int, last);
        laws::lemma_index_count(before, last);
        assert(laws::count(layout::inserted(before, before.len() as int, last), x)
            == laws::count(before, x) + laws::one_if(x)(last));
        if windows.contains(x) && x != last {
            assert(head[windows.index_of(x)] == x);
        }
        if head.contains(x) {
            assert(windows[head.index_of(x)] == x);
        }
        if x == last {
            assert(windows[windows.len() - 1] == x);
        }
    }
}

/// After the first look a strip holds just the windows that are on its space and
/// not minimized, each once.
pub proof fn law_setup_shows_the_space(
    columns: Seq<ColumnModel>,
    windows: Seq<Entity>,
    x: Entity,
)
    requires
        forall|e: Entity| #[trigger] laws::count(columns, e) <= 1,
    ensures
        laws::count(refreshed(columns, windows), x) == if windows.contains(x) {
            1nat
        } else {
            0nat
        },
{
    let p = is_missing(windows);
    let all = layout::all_windows(columns);
    let gone = all.filter(p);
    let left = layout::without_all(columns, gone);
    laws::lemma_without_all(columns, gone, x);
    laws::lemma_all_windows_count(columns, x);
    lemma_with_missing(left, windows, x);
    if gone.contains(x) {
        all.lemma_filter_pred(p, gone.index_of(x));
    } else if p(x) && laws::count(columns, x) > 0 {
        all.lemma_filter_contains(p, all.index_of(x));
    }
}

/// A strip that shows just the windows on its space is left as it is.
pub proof fn law_setup_keeps_the_order(columns: Seq<ColumnModel>, windows: Seq<Entity>)
    requires
        forall|e: Entity| #[trigger] laws::count(columns, e) > 0 <==> windows.contains(e),
    ensures
        refreshed(columns, windows) == columns,
{
    let p = is_missing(windows);
    let all = layout::all_windows(columns);
    let gone = all.filter(p);
    assert(gone.len() == 0) by {
        if gone.len() > 0 {
            all.lemma_filter_pred(p, 0);
            lemma_filter_within(all, p, 0);
            laws::lemma_all_windows_count(columns, gone[0]);
        }
    }
    lemma_none_missing(columns, windows, windows.len() as int);
    assert(windows.take(windows.len() as int) == windows);
}

/// What a filter lets through is in the sequence.
proof fn lemma_filter_within(s: Seq<Entity>, p: spec_fn(Entity) -> bool, i: int)
    requires
        0 <= i < s.filter(p).len(),
    ensures
        s.contains(s.filter(p)[i]),
    decreases s.len(),
{
    reveal(Seq::filter);
    if s.len() > 0 {
        let head = s.drop_last();
        if i < head.filter(p).len() {
            lemma_filter_within(head, p, i);
            let k = head.index_of(head.filter(p)[i]);
            assert(s[k] == head.filter(p)[i]);
            assert(s.filter(p)[i] == head.filter(p)[i]);
        } else {
            assert(s[s.len() - 1] == s.filter(p)[i]);
        }
    }
}

proof fn lemma_none_missing(columns: Seq<ColumnModel>, windows: Seq<Entity>, n: int)
    requires
        0 <= n <= windows.len(),
        forall|e: Entity| #[trigger] laws::count(columns, e) > 0 <==> windows.contains(e),
    ensures
        with_missing(columns, windows.take(n)) == columns,
    decreases n,
{
    if n > 0 {
        lemma_none_missing(columns, windows, n - 1);
        assert(windows.take(n).drop_last() =~= windows.take(n - 1));
        let last = windows[n - 1];
        assert(windows.contains(last));
        laws::lemma_index_count(columns, last);
    }
}

// ---------------------------------------------------------------------------
// Displays, processes and applications
// ---------------------------------------------------------------------------
/// A display that is to be set up, with its strips, and which of them is active.
#[derive(Debug)]
pub struct DisplaySetup {
    pub id: u32,
    /// Where its strips begin: its corner.
    pub origin: IVec2,
    pub active: bool,
    pub strips: Vec<(WorkspaceId, bool)>,
}

/// The setup is that of a display of the scan.
pub open spec fn sets_up(
    setup: DisplaySetup,
    display: ScannedDisplay,
    active_display: u32,
    active_space: WorkspaceId,
) -> bool {
    &&& setup.id == display.id
    &&& setup.origin == display.bounds.min
    &&& setup.active == (display.id == active_display)
    &&& setup.strips.len() == display.spaces.len()
    &&& forall|i: int|
        0 <= i < display.spaces.len() ==> #[trigger] setup.strips@[i] == (
            display.spaces@[i],
            display.spaces@[i] == active_space,
        )
}

/// The displays that there are at the start, each with a strip for each of its
/// spaces. Where the space that is shown cannot be told, the first display comes
/// without strips and the others are left for later.
pub fn gather_displays(
    active_display: u32,
    active_space: Option<WorkspaceId>,
    present: &Vec<ScannedDisplay>,
) -> (displays: Vec<DisplaySetup>)
    ensures
        active_space is Some ==> displays.len() == present.len() && forall|i: int|
            0 <= i < present.len() ==> sets_up(
                #[trigger] displays@[i],
                present@[i],
                active_display,
                active_space->0,
            ),
        active_space is None ==> {
            &&& displays.len() == if present.len() > 0 {
                1int
            } else {
                0
            }
            &&& present.len() > 0 ==> displays@[0].id == present@[0].id && displays@[0].origin
                == present@[0].bounds.min && displays@[0].active == (
            present@[0].id == active_display) && displays@[0].strips.len() == 0
        },
{
    let mut displays: Vec<DisplaySetup> = Vec::new();
    let mut i: usize = 0;
    while i < present.len()
        invariant
            i <= present.len(),
            displays.len() == i,
            active_space is None ==> i == 0,
            active_space is Some ==> forall|j: int|
                0 <= j < i ==> sets_up(
                    #[trigger] displays@[j],
                    present@[j],
                    active_display,
                    active_space->0,
                ),
        decreases present.len() - i,
    {
        let id: u32 = present[i].id;
        let origin = present[i].bounds.min;
        let active = id == active_display;
        let mut strips: Vec<(WorkspaceId, bool)> = Vec::new();
        match active_space {
            None => {
                displays.push(DisplaySetup { id, origin, active, strips });
                return displays;
            },
            Some(space) => {
                let spaces = &present[i].spaces;
                let mut k: usize = 0;
                while k < spaces.len()
                    invariant
                        k <= spaces.len(),
                        strips.len() == k,
                        forall|j: int|
                            0 <= j < k ==> #[trigger] strips@[j] == (
                                spaces@[j],
                                spaces@[j] == space,
                            ),
                    decreases spaces.len() - k,
                {
                    strips.push((spaces[k], spaces[k] == space));
                    k = k + 1;
                }
                displays.push(DisplaySetup { id, origin, active, strips });
            },
        }
        i = i + 1;
    }
    displays
}

/// The processes are all there, or the application is to exit.
pub open spec fn ends_gathering() -> spec_fn(Event) -> bool {
    |event: Event| event is ProcessesLoaded || event is Exit
}

/// The process that an event launches.
pub open spec fn launched() -> spec_fn(Event) -> Option<ProcessSerialNumber> {
    |event: Event|
        match event {
            Event::ApplicationLaunched { psn } => Some(psn),
            _ => None,
        }
}

/// The events of the start.
pub open spec fn first_events(events: Seq<Event>) -> Seq<Event> {
    match search::first_index(events, ends_gathering()) {
        Some(end) => events.take(end),
        None => events,
    }
}

/// The event brings a configuration.
pub open spec fn brings_config() -> spec_fn(Event) -> bool {
    |event: Event| event is InitialConfig
}

/// The configuration to start with: the last that some events bring.
pub open spec fn initial_config(events: Seq<Event>) -> Option<Config> {
    match search::last_index(events, brings_config()) {
        Some(i) => Some(events[i]->InitialConfig_0),
        None => None,
    }
}

/// What a reference that may be missing refers to.
pub open spec fn referred<A>(reference: Option<&A>) -> Option<A> {
    match reference {
        Some(a) => Some(*a),
        None => None,
    }
}

/// The processes of the start, the last one first.
pub open spec fn first_processes(events: Seq<Event>) -> Seq<ProcessSerialNumber> {
    first_events(events).filter_map(launched()).reverse()
}

/// The processes that run at the start, the last one first, and the configuration
/// to start with: what is announced before the list is complete. Of several
/// configurations the last one counts.
pub fn gather_initial_processes(events: &Vec<Event>) -> (gathered: (
    Vec<ProcessSerialNumber>,
    Option<&Config>,
))
    ensures
        gathered.0@ == first_processes(events@),
        referred(gathered.1) == initial_config(first_events(events@)),
{
    let ghost p = ends_gathering();
    let ghost f = launched();
    let ghost c = brings_config();
    let mut config: Option<&Config> = None;
    proof {
        search::lemma_no_last_index(events@.take(0), c);
    }
    let mut found: Vec<ProcessSerialNumber> = Vec::new();
    let mut i: usize = 0;
    while i < events.len()
        invariant
            i <= events.len(),
            p == ends_gathering(),
            f == launched(),
            c == brings_config(),
            referred(config) == initial_config(events@.take(i as int)),
            forall|j: int| 0 <= j < i ==> !p(#[trigger] events@[j]),
            found@ == events@.take(i as int).filter_map(f),
        ensures
            i <= events.len(),
            i < events.len() ==> p(events@[i as int]),
            referred(config) == initial_config(events@.take(i as int)),
            forall|j: int| 0 <= j < i ==> !p(#[trigger] events@[j]),
            found@ == events@.take(i as int).filter_map(f),
        decreases events.len() - i,
    {
        let ends = match &events[i] {
            Event::ProcessesLoaded => true,
            Event::Exit => true,
            _ => false,
        };
        if ends {
            break ;
        }
        proof {
            events@.lemma_filter_map_take_succ(f, i as int);
        }
        proof {
            lemma_last_of_more(events@.take(i as int), c, events@[i as int]);
            assert(events@.take(i + 1) =~= events@.take(i as int).push(events@[i as int]));
        }
        match &events[i] {
            Event::ApplicationLaunched { psn } => {
                found.push(*psn);
            },
            Event::InitialConfig(initial) => {
                config = Some(initial);
            },
            _ => {},
        }
        i = i + 1;
    }
    proof {
        if i < events.len() {
            search::lemma_first_index(events@, p, i as int);
        } else {
            search::lemma_no_first_index(events@, p);
            assert(events@.take(i as int) == events@);
        }
    }
    let mut processes: Vec<ProcessSerialNumber> = Vec::new();
    let mut k: usize = found.len();
    while k > 0
        invariant
            k <= found.len(),
            processes@ == found@.skip(k as int).reverse(),
        decreases k,
    {
        k = k - 1;
        processes.push(found[k]);
        assert(found@.skip(k as int).reverse() =~= found@.skip(k + 1).reverse().push(
            found@[k as int],
        ));
    }
    assert(found@.skip(0) =~= found@);
    (processes, config)
}

/// The last element of a longer sequence that satisfies `p`.
proof fn lemma_last_of_more<A>(s: Seq<A>, p: spec_fn(A) -> bool, a: A)
    ensures
        search::last_index(s.push(a), p) == if p(a) {
            Some(s.len() as int)
        } else {
            search::last_index(s, p)
        },
        search::last_index(s, p) matches Some(i) ==> 0 <= i < s.len(),
{
    let more = s.push(a);
    if p(a) {
        search::lemma_last_index(more, p, s.len() as int);
    } else if let Some(i) = search::last_index(s, p) {
        assert(search::is_last(s, p, i));
        assert(search::is_last(more, p, i));
        search::lemma_last_index(more, p, i);
    } else if exists|i: int| search::is_last(more, p, i) {
        let i = choose|i: int| search::is_last(more, p, i);
        assert(more[s.len() as int] == a);
        assert forall|j: int| i < j < s.len() implies !p(#[trigger] s[j]) by {
            assert(more[j] == s[j]);
        }
        assert(search::is_last(s, p, i));
    }
}

/// What is done about a process that was just launched.
#[derive(Clone, Copy, Debug, PartialEq, Eq, Structural)]
pub enum LaunchStep {
    /// It is looked at again later.
    Wait,
    /// It has its application: nothing is left to do.
    Done,
    /// An application is to be made for it.
    Create,
}

/// What is done about a process that was launched.
pub open spec fn answer_to_launch(seen: bool, ready: bool, has_application: bool) -> LaunchStep {
    if seen || !ready {
        LaunchStep::Wait
    } else if has_application {
        LaunchStep::Done
    } else {
        LaunchStep::Create
    }
}

/// What is done about a process that was just launched. One that appears twice
/// is only looked at once.
pub fn add_launched_process(seen: bool, ready: bool, has_application: bool) -> (step: LaunchStep)
    ensures
        step == answer_to_launch(seen, ready, has_application),
{
    if seen || !ready {
        LaunchStep::Wait
    } else if has_application {
        LaunchStep::Done
    } else {
        LaunchStep::Create
    }
}

/// A process that was just launched, and what stands for it.
#[derive(Clone, Copy, Debug, PartialEq, Eq, Structural)]
pub struct FreshProcess {
    pub entity: Entity,
    pub psn: ProcessSerialNumber,
    pub ready: bool,
    pub has_application: bool,
}

/// What came of a process that was just launched.
#[derive(Clone, Copy, Debug, PartialEq, Eq, Structural)]
pub enum Launched {
    /// It is new no longer.
    Finished(Entity),
    /// It has an application now.
    Created(Entity),
    /// No application could be made for it.
    Failed(Entity),
}

/// One of the first processes has this number.
pub open spec fn was_seen(processes: Seq<FreshProcess>, psn: ProcessSerialNumber) -> bool {
    exists|i: int| 0 <= i < processes.len() && (#[trigger] processes[i]).psn == psn
}

/// What is done about the process at an index.
pub open spec fn launch_step(processes: Seq<FreshProcess>, i: int) -> LaunchStep {
    let process = processes[i];
    answer_to_launch(
        was_seen(processes.take(i), process.psn),
        process.ready,
        process.has_application,
    )
}

/// The pass is over: an application could not be made.
pub open spec fn is_over(done: Seq<Launched>) -> bool {
    done.len() > 0 && done.last() is Failed
}

/// What comes of the first `n` processes, where `outcomes` says for each of them
/// whether an application can be made. A process whose number came before is passed
/// over. The first application that cannot be made ends the pass.
pub open spec fn launch_pass(processes: Seq<FreshProcess>, outcomes: Seq<bool>, n: int) -> Seq<
    Launched,
>
    decreases n,
{
    if n <= 0 {
        Seq::empty()
    } else {
        let before = launch_pass(processes, outcomes, n - 1);
        let entity = processes[n - 1].entity;
        if is_over(before) {
            before
        } else {
            match launch_step(processes, n - 1) {
                LaunchStep::Wait => before,
                LaunchStep::Done => before.push(Launched::Finished(entity)),
                LaunchStep::Create => before.push(
                    if outcomes[n - 1] {
                        Launched::Created(entity)
                    } else {
                        Launched::Failed(entity)
                    },
                ),
            }
        }
    }
}

/// An application is asked for on behalf of the process at an index.
pub open spec fn is_asked_for(processes: Seq<FreshProcess>, outcomes: Seq<bool>, i: int) -> bool {
    launch_step(processes, i) is Create && !is_over(launch_pass(processes, outcomes, i))
}

/// Looks through the processes that were just launched. `create` makes an
/// application for one, and says whether that worked.
pub fn add_launched_processes<F: Fn(Entity) -> bool>(
    processes: &Vec<FreshProcess>,
    create: F,
) -> (done: Vec<Launched>)
    requires
        forall|entity: Entity| #[trigger] call_requires(create, (entity,)),
    ensures
        exists|outcomes: Seq<bool>|
            {
                &&& done@ == #[trigger] launch_pass(processes@, outcomes, processes@.len() as int)
                &&& forall|i: int|
                    0 <= i < processes@.len() && is_asked_for(processes@, outcomes, i)
                        ==> call_ensures(
                        create,
                        (processes@[i].entity,),
                        #[trigger] outcomes[i],
                    )
            },
{
    let ghost all = processes@;
    let mut done: Vec<Launched> = Vec::new();
    let ghost mut outcomes: Seq<bool> = Seq::empty();
    let mut i: usize = 0;
    while i < processes.len()
        invariant
            i <= processes.len(),
            all == processes@,
            outcomes.len() == i,
            forall|entity: Entity| #[trigger] call_requires(create, (entity,)),
            done@ == launch_pass(all, outcomes, i as int),
            !is_over(done@),
            forall|j: int|
                0 <= j < i && is_asked_for(all, outcomes, j) ==> call_ensures(
                    create,
                    (all[j].entity,),
                    #[trigger] outcomes[j],
                ),
        decreases processes.len() - i,
    {
        let process = processes[i];
        let seen = seen_before(processes, i);
        let mut outcome = true;
        match add_launched_process(seen, process.ready, process.has_application) {
            LaunchStep::Wait => {},
            LaunchStep::Done => {
                done.push(Launched::Finished(process.entity));
            },
            LaunchStep::Create => {
                outcome = create(process.entity);
                if outcome {
                    done.push(Launched::Created(process.entity));
                } else {
                    done.push(Launched::Failed(process.entity));
                }
            },
        }
        let ghost longer = outcomes.push(outcome);
        proof {
            lemma_same_pass(all, outcomes, longer, i as int);
            assert forall|j: int| 0 <= j < i + 1 && is_asked_for(all, longer, j) implies call_ensures(
                create,
                (all[j].entity,),
                #[trigger] longer[j],
            ) by {
                lemma_same_pass(all, outcomes, longer, j);
                if j < i {
                    assert(outcomes[j] == longer[j]);
                }
            }
            outcomes = longer;
        }
        i = i + 1;
        if let LaunchStep::Create = add_launched_process(
            seen,
            process.ready,
            process.has_application,
        ) {
            if !outcome {
                proof {
                    let full = outcomes + Seq::new((all.len() - i) as nat, |j: int| true);
                    lemma_same_pass(all, outcomes, full, i as int);
                    lemma_over_for_good(all, full, i as int, all.len() as int);
                    assert forall|j: int|
                        0 <= j < all.len() && is_asked_for(all, full, j) implies call_ensures(
                        create,
                        (all[j].entity,),
                        #[trigger] full[j],
                    ) by {
                        if j < i {
                            lemma_same_pass(all, outcomes, full, j);
                            assert(full[j] == outcomes[j]);
                        } else {
                            lemma_over_for_good(all, full, i as int, j);
                        }
                    }
                    assert(done@ == launch_pass(all, full, all.len() as int));
                }
                return done;
            }
        }
    }
    done
}

/// Outcomes that agree on the first processes lead to the same.
proof fn lemma_same_pass(
    processes: Seq<FreshProcess>,
    a: Seq<bool>,
    b: Seq<bool>,
    n: int,
)
    requires
        forall|j: int| 0 <= j < n ==> #[trigger] a[j] == b[j],
    ensures
        launch_pass(processes, a, n) == launch_pass(processes, b, n),
    decreases n,
{
    if n > 0 {
        lemma_same_pass(processes, a, b, n - 1);
        assert(a[n - 1] == b[n - 1]);
    }
}

/// A pass that is over stays as it is.
proof fn lemma_over_for_good(
    processes: Seq<FreshProcess>,
    outcomes: Seq<bool>,
    from: int,
    to: int,
)
    requires
        0 <= from <= to,
        is_over(launch_pass(processes, outcomes, from)),
    ensures
        launch_pass(processes, outcomes, to) == launch_pass(processes, outcomes, from),
    decreases to - from,
{
    if from < to {
        lemma_over_for_good(processes, outcomes, from, to - 1);
    }
}

/// Whether the number of a process came before.
fn seen_before(processes: &Vec<FreshProcess>, at: usize) -> (seen: bool)
    requires
        at < processes.len(),
    ensures
        seen == was_seen(processes@.take(at as int), processes@[at as int].psn),
{
    let ghost before = processes@.take(at as int);
    let psn = processes[at].psn;
    let mut i: usize = 0;
    while i < at
        invariant
            i <= at < processes.len(),
            before == processes@.take(at as int),
            psn == processes@[at as int].psn,
            forall|j: int| 0 <= j < i ==> (#[trigger] before[j]).psn != psn,
        decreases at - i,
    {
        assert(before[i as int] == processes@[i as int]);
        if processes[i].psn == psn {
            assert(before[i as int].psn == psn);
            return true;
        }
        i = i + 1;
    }
    false
}

/// Windows that are not known yet.
pub open spec fn is_new(known: Seq<WinID>) -> spec_fn(WinID) -> bool {
    |id: WinID| !known.contains(id)
}

/// The windows of an application that was just launched which are not known yet,
/// and whether the application is new no longer: it has shown a window, now or
/// before.
pub fn add_launched_application(listed: &Vec<WinID>, known: &Vec<WinID>, has_windows: bool) -> (
outcome: (Vec<WinID>, bool))
    ensures
        outcome.0@ == listed@.filter(is_new(known@)),
        outcome.1 == (listed@.filter(is_new(known@)).len() > 0 || has_windows),
{
    let ghost p = is_new(known@);
    let mut created: Vec<WinID> = Vec::new();
    let mut i: usize = 0;
    proof {
        reveal(Seq::filter);
        assert(listed@.take(0).filter(p) =~= Seq::empty());
    }
    while i < listed.len()
        invariant
            i <= listed.len(),
            p == is_new(known@),
            created@ == listed@.take(i as int).filter(p),
        decreases listed.len() - i,
    {
        proof {
            assert(listed@.take(i + 1) =~= listed@.take(i as int).push(listed@[i as int]));
            listed@.take(i as int).lemma_filter_push(listed@[i as int], p);
        }
        if !has_number(known, listed[i]) {
            created.push(listed[i]);
        }
        i = i + 1;
    }
    assert(listed@.take(i as int) =~= listed@);
    let done = created.len() > 0 || has_windows;
    (created, done)
}

/// What is done about an event at the top.
#[derive(Clone, Copy, Debug, PartialEq, Eq, Structural)]
pub enum Dispatch {
    /// A window may be added.
    AddWindow,
    /// It is handed on; notifications arrive, so polling for them may stop.
    Forward { stop_polling: bool },
    /// It is only logged.
    Drop,
}

/// Where an event goes.
pub open spec fn dispatch_of(event: Event, polling: bool) -> Dispatch {
    match event {
        Event::WindowCreated => Dispatch::AddWindow,
        Event::SpaceChanged => Dispatch::Forward { stop_polling: polling },
        Event::WindowTitleChanged { .. } => Dispatch::Drop,
        Event::MenuClosed { .. } => Dispatch::Drop,
        Event::DisplayResized { .. } => Dispatch::Drop,
        Event::DisplayConfigured { .. } => Dispatch::Drop,
        Event::SystemWoke { .. } => Dispatch::Drop,
        _ => Dispatch::Forward { stop_polling: false },
    }
}

/// What is done about an event at the top: some are only logged, all others are
/// handed on.
pub fn dispatch_toplevel_triggers(event: &Event, polling: bool) -> (dispatch: Dispatch)
    ensures
        dispatch == dispatch_of(*event, polling),
{
    match event {
        Event::WindowCreated => Dispatch::AddWindow,
        Event::SpaceChanged => Dispatch::Forward { stop_polling: polling },
        Event::WindowTitleChanged { .. } => Dispatch::Drop,
        Event::MenuClosed { .. } => Dispatch::Drop,
        Event::DisplayResized { .. } => Dispatch::Drop,
        Event::DisplayConfigured { .. } => Dispatch::Drop,
        Event::SystemWoke { .. } => Dispatch::Drop,
        _ => Dispatch::Forward { stop_polling: false },
    }
}

// ---------------------------------------------------------------------------
// Watching the displays
// ---------------------------------------------------------------------------
/// A known display, and whether it is marked as the active one.
#[derive(Clone, Copy, Debug, PartialEq, Eq, Structural)]
pub struct WatchedDisplay {
    pub id: u32,
    pub active: bool,
}

/// Displays with this number.
pub open spec fn is_display(id: u32) -> spec_fn(WatchedDisplay) -> bool {
    |d: WatchedDisplay| d.id == id
}

/// A known display that is not present any more.
pub open spec fn is_removed(present: Seq<u32>) -> spec_fn(WatchedDisplay) -> Option<Event> {
    |d: WatchedDisplay|
        if present.contains(d.id) {
            None
        } else {
            Some(Event::DisplayRemoved { display_id: d.id })
        }
}

/// The events about displays that were missed.
pub open spec fn missed_events(current: u32, displays: Seq<WatchedDisplay>, present: Seq<u32>) -> Seq<
    Event,
> {
    let gone = displays.filter_map(is_removed(present));
    match search::first_where(displays, is_display(current)) {
        Some(display) => if display.active {
            Seq::empty()
        } else {
            seq![Event::DisplayChanged] + gone
        },
        None => seq![Event::DisplayAdded { display_id: current }] + gone,
    }
}

/// The display with a number.
fn find_display(id: u32, displays: &Vec<WatchedDisplay>) -> (found: Option<WatchedDisplay>)
    ensures
        found == search::first_where(displays@, is_display(id)),
{
    let ghost p = is_display(id);
    let mut i: usize = 0;
    while i < displays.len()
        invariant
            i <= displays.len(),
            p == is_display(id),
            forall|j: int| 0 <= j < i ==> !p(#[trigger] displays@[j]),
        decreases displays.len() - i,
    {
        if displays[i].id == id {
            proof {
                search::lemma_first_index(displays@, p, i as int);
            }
            return Some(displays[i]);
        }
        i = i + 1;
    }
    proof {
        search::lemma_no_first_index(displays@, p);
    }
    None
}

/// The events about displays that were missed: another display is the active
/// one, it is a new one, and known ones are gone. While the active display is the
/// one that is marked, nothing was missed.
pub fn display_changes_watcher(
    current_display_id: u32,
    displays: &Vec<WatchedDisplay>,
    present: &Vec<u32>,
) -> (events: Vec<Event>)
    ensures
        events@ == missed_events(current_display_id, displays@, present@),
{
    let found = find_display(current_display_id, displays);
    let mut events: Vec<Event> = Vec::new();
    match found {
        Some(display) => {
            if display.active {
                return events;
            }
            events.push(Event::DisplayChanged);
        },
        None => {
            events.push(Event::DisplayAdded { display_id: current_display_id });
        },
    }
    let ghost first = events@;
    let ghost f = is_removed(present@);
    let mut k: usize = 0;
    while k < displays.len()
        invariant
            k <= displays.len(),
            f == is_removed(present@),
            events@ == first + displays@.take(k as int).filter_map(f),
        decreases displays.len() - k,
    {
        proof {
            displays@.lemma_filter_map_take_succ(f, k as int);
        }
        if !has_display(present, displays[k].id) {
            events.push(Event::DisplayRemoved { display_id: displays[k].id });
        }
        k = k + 1;
    }
    assert(displays@.take(k as int) == displays@);
    events
}

/// Whether a list has a display.
fn has_display(displays: &Vec<u32>, id: u32) -> (found: bool)
    ensures
        found == displays@.contains(id),
{
    let mut i: usize = 0;
    while i < displays.len()
        invariant
            i <= displays.len(),
            forall|j: int| 0 <= j < i ==> displays@[j] != id,
        decreases displays.len() - i,
    {
        if displays[i] == id {
            return true;
        }
        i = i + 1;
    }
    false
}

/// The longest pause between two looks for events, in milliseconds.
pub const LOOP_MAX_TIMEOUT_MS: u32 = 500;

/// How much the pause grows with each look that finds nothing.
pub const LOOP_TIMEOUT_STEP: u32 = 1;

/// How long the loop waits next.
pub open spec fn timeout_after(timeout: int, received: bool) -> int {
    if received {
        LOOP_TIMEOUT_STEP as int
    } else if timeout <= LOOP_MAX_TIMEOUT_MS {
        timeout + LOOP_TIMEOUT_STEP
    } else {
        LOOP_MAX_TIMEOUT_MS + LOOP_TIMEOUT_STEP
    }
}

/// The pause before the next look for events: short after one that found some,
/// else a little longer than before, up to a limit.
pub fn next_pump_timeout(timeout: u32, received: bool) -> (next: u32)
    ensures
        next == timeout_after(timeout as int, received),
{
    if received {
        LOOP_TIMEOUT_STEP
    } else if timeout < LOOP_MAX_TIMEOUT_MS {
        timeout + LOOP_TIMEOUT_STEP
    } else {
        LOOP_MAX_TIMEOUT_MS + LOOP_TIMEOUT_STEP
    }
}

} // verus!
