//! How applications, displays and timers come and go.
use vstd::prelude::*;

use crate::events::Event;
use crate::geometry::Entity;
use crate::search;

verus! {

// ---------------------------------------------------------------------------
// Timeouts
// ---------------------------------------------------------------------------
/// A timer that ends what it belongs to.
#[derive(Clone, Copy, Debug, PartialEq, Eq, Structural)]
pub struct TimeoutEntry {
    pub entity: Entity,
    /// How long it has run, in nanoseconds.
    pub elapsed: u64,
    /// How long it runs, in nanoseconds.
    pub limit: u64,
}

impl TimeoutEntry {
    /// The time is up.
    pub open spec fn finished(self) -> bool {
        self.elapsed >= self.limit
    }

    /// The timer some time later. It does not run past its end.
    pub open spec fn ticked(self, delta: u64) -> Self {
        if self.elapsed + delta < self.limit {
            TimeoutEntry { elapsed: (self.elapsed + delta) as u64, ..self }
        } else {
            TimeoutEntry { elapsed: self.limit, ..self }
        }
    }
}

/// What a timer whose time is up belongs to.
pub open spec fn timed_out() -> spec_fn(TimeoutEntry) -> Option<Entity> {
    |t: TimeoutEntry|
        if t.finished() {
            Some(t.entity)
        } else {
            None
        }
}

/// The timers that go on, some time later.
pub open spec fn still_running(delta: u64) -> spec_fn(TimeoutEntry) -> Option<TimeoutEntry> {
    |t: TimeoutEntry|
        if t.finished() {
            None
        } else {
            Some(t.ticked(delta))
        }
}

/// Lets the timers run. Those whose time was already up go, with what they belong
/// to, which is returned; a timer whose time is up just now goes the next time.
pub fn timeout_ticker(timers: &Vec<TimeoutEntry>, delta: u64) -> (next: (
    Vec<TimeoutEntry>,
    Vec<Entity>,
))
    ensures
        next.0@ == timers@.filter_map(still_running(delta)),
        next.1@ == timers@.filter_map(timed_out()),
{
    let ghost f = still_running(delta);
    let ghost g = timed_out();
    let mut running: Vec<TimeoutEntry> = Vec::new();
    let mut gone: Vec<Entity> = Vec::new();
    let mut i: usize = 0;
    assert(timers@.take(0).filter_map(f) =~= Seq::empty());
    assert(timers@.take(0).filter_map(g) =~= Seq::empty());
    while i < timers.len()
        invariant
            i <= timers.len(),
            f == still_running(delta),
            g == timed_out(),
            running@ == timers@.take(i as int).filter_map(f),
            gone@ == timers@.take(i as int).filter_map(g),
        decreases timers.len() - i,
    {
        proof {
            timers@.lemma_filter_map_take_succ(f, i as int);
            timers@.lemma_filter_map_take_succ(g, i as int);
        }
        let timer = timers[i];
        if timer.elapsed >= timer.limit {
            gone.push(timer.entity);
        } else {
            let left: u64 = timer.limit - timer.elapsed;
            let elapsed: u64 = if delta < left {
                timer.elapsed + delta
            } else {
                timer.limit
            };
            running.push(TimeoutEntry { entity: timer.entity, elapsed, limit: timer.limit });
        }
        assert(running@ =~= timers@.take(i + 1).filter_map(f));
        assert(gone@ =~= timers@.take(i + 1).filter_map(g));
        i = i + 1;
    }
    assert(timers@.take(i as int) =~= timers@);
    (running, gone)
}

/// A timer ends: after ticks that amount to its length, its time is up.
pub proof fn law_timers_end(timer: TimeoutEntry, delta: u64)
    requires
        delta >= timer.limit - timer.elapsed,
    ensures
        timer.ticked(delta).finished(),
        timed_out()(timer.ticked(delta)) == Some(timer.entity),
{
}

/// A process or an application that has a timer.
#[derive(Clone, Copy, Debug, PartialEq, Eq, Structural)]
pub struct FreshEntry {
    pub entity: Entity,
    /// It is not ready yet.
    pub fresh: bool,
}

/// What no longer needs its timer.
pub open spec fn got_ready() -> spec_fn(FreshEntry) -> Option<Entity> {
    |e: FreshEntry|
        if e.fresh {
            None
        } else {
            Some(e.entity)
        }
}

/// Those that got ready before their time was up: their timers go.
pub fn fresh_marker_cleanup(entries: &Vec<FreshEntry>) -> (ready: Vec<Entity>)
    ensures
        ready@ == entries@.filter_map(got_ready()),
{
    let ghost f = got_ready();
    let mut ready: Vec<Entity> = Vec::new();
    let mut i: usize = 0;
    assert(entries@.take(0).filter_map(f) =~= Seq::empty());
    while i < entries.len()
        invariant
            i <= entries.len(),
            f == got_ready(),
            ready@ == entries@.take(i as int).filter_map(f),
        decreases entries.len() - i,
    {
        proof {
            entries@.lemma_filter_map_take_succ(f, i as int);
        }
        if !entries[i].fresh {
            ready.push(entries[i].entity);
        }
        assert(ready@ =~= entries@.take(i + 1).filter_map(f));
        i = i + 1;
    }
    assert(entries@.take(i as int) =~= entries@);
    ready
}

// ---------------------------------------------------------------------------
// Displays
// ---------------------------------------------------------------------------
/// What is done about a display. Everybody is told afterwards that the displays
/// have changed.
#[derive(Clone, Copy, Debug, PartialEq, Eq, Structural)]
pub enum DisplayStep {
    Add(u32),
    Remove(u32),
    Move(u32),
}

/// What is done about a display on an event.
pub open spec fn display_step() -> spec_fn(Event) -> Option<DisplayStep> {
    |event: Event|
        match event {
            Event::DisplayAdded { display_id } => Some(DisplayStep::Add(display_id)),
            Event::DisplayRemoved { display_id } => Some(DisplayStep::Remove(display_id)),
            Event::DisplayMoved { display_id } => Some(DisplayStep::Move(display_id)),
            _ => None,
        }
}

/// What is done about the displays on some events, in their order.
pub fn displays_rearranged(events: &Vec<Event>) -> (steps: Vec<DisplayStep>)
    ensures
        steps@ == events@.filter_map(display_step()),
{
    let ghost f = display_step();
    let mut steps: Vec<DisplayStep> = Vec::new();
    let mut i: usize = 0;
    assert(events@.take(0).filter_map(f) =~= Seq::empty());
    while i < events.len()
        invariant
            i <= events.len(),
            f == display_step(),
            steps@ == events@.take(i as int).filter_map(f),
        decreases events.len() - i,
    {
        proof {
            events@.lemma_filter_map_take_succ(f, i as int);
        }
        match &events[i] {
            Event::DisplayAdded { display_id } => steps.push(DisplayStep::Add(*display_id)),
            Event::DisplayRemoved { display_id } => steps.push(DisplayStep::Remove(*display_id)),
            Event::DisplayMoved { display_id } => steps.push(DisplayStep::Move(*display_id)),
            _ => {},
        }
        assert(steps@ =~= events@.take(i + 1).filter_map(f));
        i = i + 1;
    }
    assert(events@.take(i as int) =~= events@);
    steps
}

// ---------------------------------------------------------------------------
// Applications that are already running
// ---------------------------------------------------------------------------
/// What is done with the windows of an application that is already running.
#[derive(Debug)]
pub struct ExistingWindows<W> {
    /// The windows that it shows, if it could be asked.
    pub spawn: Option<Vec<W>>,
    /// Windows that are elsewhere and have to be searched for, if there are any.
    pub search: Option<Vec<W>>,
}

/// What is done with the windows that an application said it has: those that are
/// shown, and those that are elsewhere.
pub open spec fn existing<W>(found: Option<(Seq<W>, Seq<W>)>, windows: ExistingWindows<W>) -> bool {
    match found {
        None => windows.spawn is None && windows.search is None,
        Some((shown, elsewhere)) => {
            &&& windows.spawn matches Some(spawn) && spawn@ == shown
            &&& match windows.search {
                Some(search) => search@ == elsewhere && elsewhere.len() > 0,
                None => elsewhere.len() == 0,
            }
        },
    }
}

/// A process that could not be taken for an application.
pub open spec fn is_refused<A>() -> spec_fn((Entity, Option<A>)) -> bool {
    |process: (Entity, Option<A>)| process.1 is None
}

/// How many processes there are before the first that is no application.
pub open spec fn created_ahead<A>(processes: Seq<(Entity, Option<A>)>) -> int {
    match search::first_index(processes, is_refused()) {
        Some(i) => i,
        None => processes.len() as int,
    }
}

/// Takes in the processes that are already running, as far as they are
/// applications: the first that is none ends it, and the rest wait.
pub fn add_existing_process<A>(processes: Vec<(Entity, Option<A>)>) -> (applications: Vec<
    (Entity, A),
>)
    ensures
        applications.len() == created_ahead(processes@),
        forall|i: int|
            0 <= i < applications.len() ==> (#[trigger] applications@[i]).0 == processes@[i].0
                && processes@[i].1 == Some(applications@[i].1),
{
    let ghost all = processes@;
    let ghost refused = is_refused::<A>();
    let mut applications: Vec<(Entity, A)> = Vec::new();
    let mut rest = processes;
    while rest.len() > 0
        invariant
            all == processes@,
            applications.len() + rest.len() == all.len(),
            rest@ == all.skip(applications.len() as int),
            refused == is_refused::<A>(),
            forall|i: int|
                0 <= i < applications.len() ==> (#[trigger] applications@[i]).0 == all[i].0
                    && all[i].1 == Some(applications@[i].1),
        decreases rest.len(),
    {
        let ghost at = applications.len() as int;
        let (entity, application) = rest.remove(0);
        assert(all[at] == (entity, application));
        match application {
            Some(application) => applications.push((entity, application)),
            None => {
                proof {
                    assert forall|j: int| 0 <= j < at implies !refused(#[trigger] all[j]) by {
                        assert(applications@[j].0 == all[j].0);
                    }
                    search::lemma_first_index(all, refused, at);
                }
                return applications;
            },
        }
    }
    proof {
        assert forall|j: int| 0 <= j < all.len() implies !refused(#[trigger] all[j]) by {
            assert(applications@[j].0 == all[j].0);
        }
        search::lemma_no_first_index(all, refused);
    }
    applications
}

/// What a list of windows holds, if there is one.
pub open spec fn held<W, E>(found: Result<(Vec<W>, Vec<W>), E>) -> Option<(Seq<W>, Seq<W>)> {
    match found {
        Ok((shown, elsewhere)) => Some((shown@, elsewhere@)),
        Err(_) => None,
    }
}

/// Takes in an application that is already running. It is asked for its windows
/// only if everything about it can be observed.
pub fn add_existing_application<W, E, F: FnOnce() -> Result<(Vec<W>, Vec<W>), E>>(
    observed: bool,
    find: F,
) -> (windows: ExistingWindows<W>)
    requires
        observed ==> call_requires(find, ()),
    ensures
        !observed ==> existing(None::<(Seq<W>, Seq<W>)>, windows),
        observed ==> exists|found: Result<(Vec<W>, Vec<W>), E>|
            #![trigger call_ensures(find, (), found)]
            call_ensures(find, (), found) && existing(held(found), windows),
{
    if !observed {
        return ExistingWindows { spawn: None, search: None };
    }
    let found = find();
    let ghost result = found;
    match found {
        Ok((shown, elsewhere)) => {
            let search = if elsewhere.len() == 0 {
                None
            } else {
                Some(elsewhere)
            };
            let windows = ExistingWindows { spawn: Some(shown), search };
            assert(existing(held(result), windows));
            windows
        },
        Err(_) => ExistingWindows { spawn: None, search: None },
    }
}

} // verus!
