//! What goes on behind the windows: frames that are followed, timers, observers, saving,
//! and the loop that runs it all.
use vstd::prelude::*;

use crate::application;
use crate::application::{Notification, ObserverType, Registration};
use crate::clock::Instant;
use crate::events::{DestroySource, Event, ProcessSerialNumber};
use crate::geometry::{Entity, IRect, IVec2};
use crate::laws::places;
use crate::layout;
use crate::layout::{ColumnModel, WorkspaceId};
use crate::number::Number;
use crate::observation;
use crate::observation::{
    ApplicationEntry, Detach, ObserverDetachRetry, ProcessAction, ProcessEntry, ScopeAction,
    ScopeOutcome,
};
use crate::persistence;
use crate::persistence::{PersistenceState, StateChanges};
use crate::reconcile::ScannedDisplay;
use crate::runtime;
use crate::runtime::{Received, RuntimeActivity, RuntimeWork};
use crate::search;
use crate::systems::frames;
use crate::systems::frames::{AnimationStep, DraggedWindow, FrameEntry};
use crate::systems::lifecycle;
use crate::systems::lifecycle::{DisplayStep, ExistingWindows, FreshEntry, TimeoutEntry};
use crate::systems::overlays;
use crate::systems::overlays::{
    BorderRadiusOption, FocusedWindow, OverlayAction, OverlaySettings,
};
use crate::systems::setup;
use crate::systems::setup::{
    Dispatch, DisplaySetup, FreshProcess, LaunchStep, Launched, SetupWindow, StripSetup,
    WatchedDisplay,
};
use crate::windowset::WinID;

verus! {

// ---------------------------------------------------------------------------
// Frames
// ---------------------------------------------------------------------------
/// The window that an event tells of is followed: it is on the strip that is shown, and
/// the change was not our own.
pub open spec fn is_followed(
    window_id: WinID,
    windows: Seq<FrameEntry>,
    columns: Seq<ColumnModel>,
    k: int,
    i: int,
    p: int,
) -> bool {
    &&& 0 <= k < windows.len()
    &&& windows[k].id == window_id
    &&& forall|j: int| 0 <= j < k ==> (#[trigger] windows[j]).id != window_id
    &&& !windows[k].stack_adjusted
    &&& places::only_at(columns, windows[k].entity, i, p)
}

/// A window that the user moved is meant to be where it is now, and keeps its size; no
/// other window changes.
pub proof fn law_moved_window_is_followed(
    window_id: WinID,
    windows: Seq<FrameEntry>,
    frame: IRect,
    columns: Seq<ColumnModel>,
    initializing: bool,
    k: int,
    i: int,
    p: int,
)
    requires
        is_followed(window_id, windows, columns, k, i, p),
    ensures
        ({
            let after = frames::updated(
                Event::WindowMoved { window_id },
                false,
                windows,
                Some(frame),
                columns,
                initializing,
            );
            &&& after.len() == windows.len()
            &&& after[k].position == frame.min
            &&& after[k].bounds == windows[k].bounds
            &&& after[k].entity == windows[k].entity
            &&& after[k].id == windows[k].id
            &&& forall|j: int|
                0 <= j < windows.len() && j != k ==> #[trigger] after[j] == windows[j]
        }),
{
    search::lemma_first_index(windows, frames::has_id(window_id), k);
    places::law_window_is_found_where_it_stands(columns, windows[k].entity, i, p);
}

/// A window that the user resized has the size that it has now; the focused window is
/// what the strip is laid out around.
pub proof fn law_resized_window_is_followed(
    window_id: WinID,
    windows: Seq<FrameEntry>,
    frame: IRect,
    columns: Seq<ColumnModel>,
    focused: Option<Entity>,
    k: int,
    i: int,
    p: int,
)
    requires
        is_followed(window_id, windows, columns, k, i, p),
        frame.measurable(),
        windows[k].bounds.y >= 0,
        windows[k].position.y == frame.min.y,
    ensures
        ({
            let event = Event::WindowResized { window_id };
            let after = frames::updated(event, false, windows, Some(frame), columns, false);
            let update = frames::follow_up(
                event,
                false,
                windows,
                Some(frame),
                columns,
                focused,
                false,
            );
            &&& after.len() == windows.len()
            &&& after[k].bounds.x == frame.max.x - frame.min.x
            &&& after[k].bounds.y == frame.max.y - frame.min.y
            &&& forall|j: int|
                0 <= j < windows.len() && j != k ==> #[trigger] after[j] == windows[j]
            &&& update.reshuffle == focused
            &&& update.adjusted is None
            &&& update.settled is None
        }),
{
    search::lemma_first_index(windows, frames::has_id(window_id), k);
    places::law_window_is_found_where_it_stands(columns, windows[k].entity, i, p);
}

/// A window that is not on the strip, or not known, is not followed.
pub proof fn law_other_windows_are_not_followed(
    event: Event,
    windows: Seq<FrameEntry>,
    frame: Option<IRect>,
    columns: Seq<ColumnModel>,
    initializing: bool,
    k: int,
)
    requires
        event is WindowFocused || frame is None || (event is WindowMoved && 0 <= k < windows.len()
            && windows[k].id == event->WindowMoved_window_id && (forall|j: int|
            0 <= j < k ==> (#[trigger] windows[j]).id != windows[k].id) && places::is_absent(
            columns,
            windows[k].entity,
        )),
    ensures
        frames::updated(event, false, windows, frame, columns, initializing) == windows,
{
    if event is WindowMoved && frame is Some {
        search::lemma_first_index(windows, frames::has_id(windows[k].id), k);
        places::law_absent_window_is_not_found(columns, windows[k].entity);
    }
}

/// A window that grows waits until it has stopped moving, and one that shrinks does not.
pub proof fn law_growing_waits_for_moving(current: IVec2, target: IVec2)
    ensures
        !frames::is_deferred(false, current, target),
        target.x <= current.x && target.y <= current.y ==> !frames::is_deferred(
            true,
            current,
            target,
        ),
        target.x > current.x ==> frames::is_deferred(true, current, target),
        target.y > current.y ==> frames::is_deferred(true, current, target),
{
}

/// A move is done when the window is where it goes.
pub proof fn law_animation_ends_at_its_target(reached: IVec2, target: IVec2)
    ensures
        frames::step_to(reached, target).reached == reached,
        frames::step_to(reached, target).done <==> reached.x == target.x && reached.y == target.y,
{
}

/// Of the windows that were dragged those are laid out again that have rested.
pub proof fn law_rested_windows_are_laid_out(dragged: Seq<DraggedWindow>, window: DraggedWindow)
    ensures
        dragged.push(window).filter_map(frames::rested()) == if window.rested {
            dragged.filter_map(frames::rested()).push(window.entity)
        } else {
            dragged.filter_map(frames::rested())
        },
{
    search::lemma_filter_map_push(dragged, frames::rested(), window);
}

// ---------------------------------------------------------------------------
// Timers and displays
// ---------------------------------------------------------------------------
/// A timer runs by the time that passes and stops at its end; it is over once it has got
/// there, and is then taken away.
pub proof fn law_timer_runs_to_its_end(
    timers: Seq<TimeoutEntry>,
    timer: TimeoutEntry,
    delta: u64,
)
    ensures
        timer.elapsed + delta < timer.limit ==> timer.ticked(delta).elapsed == timer.elapsed
            + delta,
        timer.elapsed + delta >= timer.limit ==> timer.ticked(delta).elapsed == timer.limit,
        timer.ticked(delta).limit == timer.limit,
        timer.ticked(delta).entity == timer.entity,
        timer.finished() <==> timer.elapsed >= timer.limit,
        timer.finished() ==> timers.push(timer).filter_map(lifecycle::timed_out())
            == timers.filter_map(lifecycle::timed_out()).push(timer.entity) && timers.push(
            timer,
        ).filter_map(lifecycle::still_running(delta)) == timers.filter_map(
            lifecycle::still_running(delta),
        ),
        !timer.finished() ==> timers.push(timer).filter_map(lifecycle::timed_out())
            == timers.filter_map(lifecycle::timed_out()) && timers.push(timer).filter_map(
            lifecycle::still_running(delta),
        ) == timers.filter_map(lifecycle::still_running(delta)).push(timer.ticked(delta)),
{
    search::lemma_filter_map_push(timers, lifecycle::timed_out(), timer);
    search::lemma_filter_map_push(timers, lifecycle::still_running(delta), timer);
}

/// What is no longer fresh is ready.
pub proof fn law_ready_when_no_longer_fresh(entries: Seq<FreshEntry>, entry: FreshEntry)
    ensures
        entries.push(entry).filter_map(lifecycle::got_ready()) == if entry.fresh {
            entries.filter_map(lifecycle::got_ready())
        } else {
            entries.filter_map(lifecycle::got_ready()).push(entry.entity)
        },
{
    search::lemma_filter_map_push(entries, lifecycle::got_ready(), entry);
}

/// Displays are added, removed and moved as the events say, in order.
pub proof fn law_displays_follow_the_events(events: Seq<Event>, id: u32)
    ensures
        ({
            let steps = events.filter_map(lifecycle::display_step());
            let added = events.push(Event::DisplayAdded { display_id: id });
            let removed = events.push(Event::DisplayRemoved { display_id: id });
            let moved = events.push(Event::DisplayMoved { display_id: id });
            &&& added.filter_map(lifecycle::display_step()) == steps.push(DisplayStep::Add(id))
            &&& removed.filter_map(lifecycle::display_step()) == steps.push(
                DisplayStep::Remove(id),
            )
            &&& moved.filter_map(lifecycle::display_step()) == steps.push(DisplayStep::Move(id))
            &&& events.push(Event::DisplayChanged).filter_map(lifecycle::display_step()) == steps
        }),
{
    let f = lifecycle::display_step();
    search::lemma_filter_map_push(events, f, Event::DisplayAdded { display_id: id });
    search::lemma_filter_map_push(events, f, Event::DisplayRemoved { display_id: id });
    search::lemma_filter_map_push(events, f, Event::DisplayMoved { display_id: id });
    search::lemma_filter_map_push(events, f, Event::DisplayChanged);
}

/// A display that is in use and not known is added; one that is known and not in use is
/// changed to; those that are gone are removed then.
pub proof fn law_missed_displays_are_reported(
    current: u32,
    displays: Seq<WatchedDisplay>,
    present: Seq<u32>,
    k: int,
)
    ensures
        ({
            let events = setup::missed_events(current, displays, present);
            let known = 0 <= k < displays.len() && displays[k].id == current && (forall|j: int|
                0 <= j < k ==> (#[trigger] displays[j]).id != current);
            let unknown = forall|j: int|
                0 <= j < displays.len() ==> (#[trigger] displays[j]).id != current;
            let gone = displays.filter_map(setup::is_removed(present));
            &&& known && displays[k].active ==> events.len() == 0
            &&& known && !displays[k].active ==> events.len() == gone.len() + 1 && events[0]
                == Event::DisplayChanged && events.skip(1) == gone
            &&& unknown ==> events.len() == gone.len() + 1 && events[0] == (Event::DisplayAdded {
                display_id: current,
            }) && events.skip(1) == gone
        }),
{
    let f = setup::is_display(current);
    let gone = displays.filter_map(setup::is_removed(present));
    if 0 <= k < displays.len() && displays[k].id == current && (forall|j: int|
        0 <= j < k ==> (#[trigger] displays[j]).id != current) {
        search::lemma_first_index(displays, f, k);
        assert((seq![Event::DisplayChanged] + gone).skip(1) =~= gone);
    }
    if forall|j: int| 0 <= j < displays.len() ==> (#[trigger] displays[j]).id != current {
        search::lemma_no_first_index(displays, f);
        assert((seq![Event::DisplayAdded { display_id: current }] + gone).skip(1) =~= gone);
    }
}

/// A display that is not present any more is removed.
pub proof fn law_missing_display_is_removed(
    displays: Seq<WatchedDisplay>,
    display: WatchedDisplay,
    present: Seq<u32>,
)
    ensures
        displays.push(display).filter_map(setup::is_removed(present)) == if present.contains(
            display.id,
        ) {
            displays.filter_map(setup::is_removed(present))
        } else {
            displays.filter_map(setup::is_removed(present)).push(
                Event::DisplayRemoved { display_id: display.id },
            )
        },
{
    search::lemma_filter_map_push(displays, setup::is_removed(present), display);
}

// ---------------------------------------------------------------------------
// Overlays
// ---------------------------------------------------------------------------
/// Overlays are drawn around the focused window's own area, a border only where one is
/// wanted; they are hidden while the user swipes or Mission Control is open.
pub proof fn law_overlays_surround_the_focused(
    settings: OverlaySettings,
    window: FocusedWindow,
)
    requires
        window.managed,
        !window.full_screen,
        overlays::inner_fits(window),
        settings.border_enabled,
    ensures
        overlays::overlay_action(true, false, settings, Some(window)) == OverlayAction::Hide,
        overlays::overlay_action(false, true, settings, Some(window)) == OverlayAction::Hide,
        overlays::overlay_action(false, false, settings, None) == OverlayAction::Hide,
        ({
            let action = overlays::overlay_action(false, false, settings, Some(window));
            &&& action is Update
            &&& action->origin.x - window.frame.min.x == window.horizontal_padding
            &&& action->origin.y - window.frame.min.y == window.vertical_padding
            &&& window.frame.max.x - (action->origin.x + action->size.x)
                == window.horizontal_padding
            &&& window.frame.max.y - (action->origin.y + action->size.y)
                == window.vertical_padding
            &&& action->dim_opacity == settings.dim_opacity
            &&& action->dim_color == settings.dim_color
            &&& action->border is Some
            &&& action->border->0.color == settings.border_color
            &&& action->border->0.opacity == settings.border_opacity
            &&& action->border->0.width == settings.border_width
        }),
{
}

/// Without a border just the dimming is drawn, and without either nothing is.
pub proof fn law_overlays_can_be_off(settings: OverlaySettings, window: FocusedWindow)
    requires
        window.managed,
        !window.full_screen,
        !settings.border_enabled,
    ensures
        settings.dim_opacity.same(Number { bits: 0 }) ==> overlays::overlay_action(
            false,
            false,
            settings,
            Some(window),
        ) == OverlayAction::Remove,
        !settings.dim_opacity.same(Number { bits: 0 }) ==> {
            let action = overlays::overlay_action(false, false, settings, Some(window));
            action is Update && action->border is None
        },
{
}

/// The radius of a border is what the first rule with one says, else what is configured,
/// else what was found out, else ten.
pub proof fn law_rule_gives_the_radius(settings: OverlaySettings, window: FocusedWindow, k: int)
    ensures
        ({
            let radii = window.rule_radii@;
            let radius = overlays::border_radius(settings, window);
            let ruled = 0 <= k < radii.len() && radii[k] is Some && (forall|j: int|
                0 <= j < k ==> #[trigger] radii[j] is None);
            let unruled = forall|j: int| 0 <= j < radii.len() ==> #[trigger] radii[j] is None;
            let auto = settings.border_radius == BorderRadiusOption::Auto;
            &&& ruled ==> radius == radii[k]->0
            &&& unruled && auto && window.detected_radius is Some ==> radius
                == window.detected_radius->0
            &&& unruled && auto && window.detected_radius is None ==> radius.bits
                == 0x4024_0000_0000_0000
            &&& unruled && !auto ==> radius == if (Number { bits: 0 }).below(
                settings.border_radius->Value_0,
            ) {
                settings.border_radius->Value_0
            } else {
                Number { bits: 0 }
            }
        }),
{
    let radii = window.rule_radii@;
    if 0 <= k < radii.len() && radii[k] is Some && (forall|j: int|
        0 <= j < k ==> #[trigger] radii[j] is None) {
        search::lemma_first_index(radii, overlays::is_given(), k);
    }
    if forall|j: int| 0 <= j < radii.len() ==> #[trigger] radii[j] is None {
        search::lemma_no_first_index(radii, overlays::is_given());
    }
}

// ---------------------------------------------------------------------------
// The start
// ---------------------------------------------------------------------------
/// A process that is ready and was not seen gets an application, unless it has one.
pub proof fn law_ready_process_gets_an_application(seen: bool, ready: bool, served: bool)
    ensures
        setup::answer_to_launch(seen, ready, served) == LaunchStep::Create <==> !seen && ready
            && !served,
        setup::answer_to_launch(seen, ready, served) == LaunchStep::Done <==> !seen && ready && served,
        setup::answer_to_launch(seen, ready, served) == LaunchStep::Wait <==> seen || !ready,
{
}

/// A pass over processes goes on until an application cannot be made.
pub proof fn law_launching_stops_at_a_failure(
    processes: Seq<FreshProcess>,
    outcomes: Seq<bool>,
    n: int,
)
    requires
        0 <= n < processes.len(),
    ensures
        ({
            let before = setup::launch_pass(processes, outcomes, n);
            let after = setup::launch_pass(processes, outcomes, n + 1);
            let process = processes[n];
            let seen = exists|j: int| 0 <= j < n && (#[trigger] processes[j]).psn == process.psn;
            let failed = before.len() > 0 && before[before.len() - 1] is Failed;
            &&& failed ==> after == before
            &&& !failed && (seen || !process.ready) ==> after == before
            &&& !failed && !seen && process.ready && process.has_application ==> after
                == before.push(Launched::Finished(process.entity))
            &&& !failed && !seen && process.ready && !process.has_application && outcomes[n]
                ==> after == before.push(Launched::Created(process.entity))
            &&& !failed && !seen && process.ready && !process.has_application && !outcomes[n]
                ==> after == before.push(Launched::Failed(process.entity))
        }),
        setup::launch_pass(processes, outcomes, 0).len() == 0,
{
    let earlier = processes.take(n);
    let psn = processes[n].psn;
    if exists|j: int| 0 <= j < n && (#[trigger] processes[j]).psn == psn {
        let j = choose|j: int| 0 <= j < n && (#[trigger] processes[j]).psn == psn;
        assert(earlier[j].psn == psn);
    }
    if setup::was_seen(earlier, psn) {
        let j = choose|j: int| 0 <= j < earlier.len() && (#[trigger] earlier[j]).psn == psn;
        assert(processes[j].psn == psn);
    }
}

/// The events of the start go up to the one that says so: what is launched before it is
/// gathered, the last first, and what comes after it is not.
pub proof fn law_start_ends_with_its_event(
    before: Seq<Event>,
    after: Seq<Event>,
    psn: ProcessSerialNumber,
)
    requires
        forall|j: int|
            0 <= j < before.len() ==> !(#[trigger] before[j] is ProcessesLoaded || before[j]
                is Exit),
    ensures
        setup::first_processes(before.push(Event::Exit) + after) == setup::first_processes(before),
        setup::first_processes(before.push(Event::ApplicationLaunched { psn })) == seq![psn]
            + setup::first_processes(before),
{
    let f = setup::ends_gathering();
    let n = before.len() as int;
    let all = before.push(Event::Exit) + after;
    assert forall|j: int| 0 <= j < n implies !f(#[trigger] all[j]) by {
        assert(all[j] == before[j]);
    }
    assert(all[n] == Event::Exit);
    search::lemma_first_index(all, f, n);
    assert(all.take(n) =~= before);
    search::lemma_no_first_index(before, f);
    let more = before.push(Event::ApplicationLaunched { psn });
    assert forall|j: int| 0 <= j < more.len() implies !f(#[trigger] more[j]) by {
        if j < n {
            assert(more[j] == before[j]);
        }
    }
    search::lemma_no_first_index(more, f);
    search::lemma_filter_map_push(before, setup::launched(), Event::ApplicationLaunched { psn });
    let launched = before.filter_map(setup::launched());
    assert(launched.push(psn).reverse() =~= seq![psn] + launched.reverse());
}

/// The configuration to start with is the last one that comes.
pub proof fn law_last_configuration_counts(events: Seq<Event>, event: Event)
    ensures
        setup::initial_config(events.push(event)) == if event is InitialConfig {
            Some(event->InitialConfig_0)
        } else {
            setup::initial_config(events)
        },
        setup::initial_config(Seq::empty()) is None,
{
    let f = setup::brings_config();
    let all = events.push(event);
    let n = events.len() as int;
    search::lemma_no_last_index(Seq::<Event>::empty(), f);
    if event is InitialConfig {
        search::lemma_last_index(all, f, n);
    } else if exists|i: int| search::is_last(events, f, i) {
        let i = choose|i: int| search::is_last(events, f, i);
        search::lemma_last_index(events, f, i);
        assert forall|j: int| i < j < all.len() implies !f(#[trigger] all[j]) by {
            if j < n {
                assert(all[j] == events[j]);
            }
        }
        assert(all[i] == events[i]);
        search::lemma_last_index(all, f, i);
    } else if exists|i: int| search::is_last(all, f, i) {
        let i = choose|i: int| search::is_last(all, f, i);
        assert(all[i] == events[i]);
        assert forall|j: int| i < j < events.len() implies !f(#[trigger] events[j]) by {
            assert(all[j] == events[j]);
        }
        assert(search::is_last(events, f, i));
    }
}

/// A new window is added, a change of space is passed on and ends the polling, and what
/// nobody waits for is dropped.
pub proof fn law_events_are_dispatched(event: Event, polling: bool)
    ensures
        event is WindowCreated ==> setup::dispatch_of(event, polling) == Dispatch::AddWindow,
        event is SpaceChanged ==> setup::dispatch_of(event, polling) == (Dispatch::Forward {
            stop_polling: polling,
        }),
        event is WindowTitleChanged || event is MenuClosed || event is DisplayResized || event
            is DisplayConfigured || event is SystemWoke ==> setup::dispatch_of(event, polling)
            == Dispatch::Drop,
        event is WindowFocused || event is WindowMoved || event is DisplayAdded || event
            is Command ==> setup::dispatch_of(event, polling) == (Dispatch::Forward {
            stop_polling: false,
        }),
{
}

/// The loop waits a little longer each time that nothing comes, up to a limit, and starts
/// anew when something does.
pub proof fn law_waiting_grows_to_a_limit(timeout: int)
    ensures
        setup::timeout_after(timeout, true) == 1,
        timeout <= 500 ==> setup::timeout_after(timeout, false) == timeout + 1,
        setup::timeout_after(timeout, false) <= 501,
        timeout > 500 ==> setup::timeout_after(timeout, false) == 501,
{
}

// ---------------------------------------------------------------------------
// Observers
// ---------------------------------------------------------------------------
/// An application is observed while it is in front or has a window that is laid out, and
/// only then.
pub proof fn law_needed_applications_are_observed(
    applications: Seq<ApplicationEntry>,
    app: ApplicationEntry,
    managed: Seq<Entity>,
    target: Option<Entity>,
)
    ensures
        ({
            let actions = applications.filter_map(observation::scope_action(target, managed));
            let more = applications.push(app).filter_map(
                observation::scope_action(target, managed),
            );
            let needed = target == Some(app.entity) || exists|i: int|
                0 <= i < app.children@.len() && managed.contains(#[trigger] app.children@[i]);
            &&& needed && !app.observed ==> more == actions.push(ScopeAction::Observe(app.entity))
            &&& !needed && app.observed ==> more == actions.push(
                ScopeAction::Unobserve(app.entity),
            )
            &&& needed == app.observed ==> more == actions
        }),
{
    search::lemma_filter_map_push(applications, observation::scope_action(target, managed), app);
}

/// An observer that came on is marked, one that came off is unmarked, and one that did
/// not come off is tried again a quarter of a second later.
pub proof fn law_observers_are_marked(entity: Entity, now: Instant)
    requires
        now.nanos + 250_000_000 <= u64::MAX,
    ensures
        observation::outcome_of(ScopeAction::Observe(entity), true, now) == ScopeOutcome::Mark(
            entity,
        ),
        observation::outcome_of(ScopeAction::Observe(entity), false, now) == ScopeOutcome::Keep,
        observation::outcome_of(ScopeAction::Unobserve(entity), true, now)
            == ScopeOutcome::Unmark(entity),
        observation::outcome_of(ScopeAction::Unobserve(entity), false, now) matches
            ScopeOutcome::Retry(who, retry) && who == entity && retry.deadline.nanos == now.nanos
            + 250_000_000 && retry.attempts == 0 && retry.remove_application_marker,
{
}

/// The observer of an application comes off with its last window, unless it is in front.
pub proof fn law_last_window_takes_the_observer(frontmost: bool, owns_other: bool)
    ensures
        observation::lets_go(true, false, false),
        !observation::lets_go(false, frontmost, owns_other),
        !observation::lets_go(true, true, owns_other),
        !observation::lets_go(true, frontmost, true),
{
}

/// A process that is launched is added once, and one that ends is removed if it is known.
pub proof fn law_processes_come_and_go(
    psn: ProcessSerialNumber,
    processes: Seq<ProcessEntry>,
    k: int,
)
    ensures
        0 <= k < processes.len() && k <= usize::MAX && processes[k].psn == psn && (forall|j: int|
            0 <= j < k ==> (#[trigger] processes[j]).psn != psn) ==> observation::action_on(
            Event::ApplicationLaunched { psn },
            processes,
        ) == ProcessAction::Ignore && observation::action_on(
            Event::ApplicationTerminated { psn },
            processes,
        ) == ProcessAction::Despawn(k as usize),
        (forall|j: int| 0 <= j < processes.len() ==> (#[trigger] processes[j]).psn != psn)
            ==> observation::action_on(Event::ApplicationLaunched { psn }, processes)
            == ProcessAction::Spawn(psn) && observation::action_on(
            Event::ApplicationTerminated { psn },
            processes,
        ) == ProcessAction::Ignore,
{
    let f = observation::has_psn(psn);
    if 0 <= k < processes.len() && processes[k].psn == psn && (forall|j: int|
        0 <= j < k ==> (#[trigger] processes[j]).psn != psn) {
        search::lemma_first_index(processes, f, k);
    }
    if forall|j: int| 0 <= j < processes.len() ==> (#[trigger] processes[j]).psn != psn {
        search::lemma_no_first_index(processes, f);
    }
}

/// When an application goes its windows are detached in order, and it comes last.
pub proof fn law_windows_are_detached_first(windows: Seq<WinID>, k: int)
    ensures
        observation::all_detached(windows).len() == windows.len() + 1,
        0 <= k < windows.len() ==> observation::all_detached(windows)[k] == Detach::Window(
            windows[k],
        ),
        observation::all_detached(windows)[windows.len() as int] == Detach::Application,
{
}

/// A notification about a window stands for the event of the same name.
pub proof fn law_notifications_stand_for_events(id: WinID)
    ensures
        ({
            let app = ObserverType::Application;
            let window = ObserverType::Window(id);
            &&& app.event(Notification::Created, None) == Some(Event::WindowCreated)
            &&& app.event(Notification::FocusedWindowChanged, Some(id)) == Some(
                Event::WindowFocused { window_id: id },
            )
            &&& app.event(Notification::WindowMoved, Some(id)) == Some(
                Event::WindowMoved { window_id: id },
            )
            &&& app.event(Notification::WindowResized, Some(id)) == Some(
                Event::WindowResized { window_id: id },
            )
            &&& app.event(Notification::TitleChanged, Some(id)) == Some(
                Event::WindowTitleChanged { window_id: id },
            )
            &&& app.event(Notification::MenuOpened, Some(id)) == Some(
                Event::MenuOpened { window_id: id },
            )
            &&& app.event(Notification::MenuClosed, Some(id)) == Some(
                Event::MenuClosed { window_id: id },
            )
            &&& app.event(Notification::FocusedWindowChanged, None) is None
            &&& window.event(Notification::WindowMiniaturized, None) == Some(
                Event::WindowMinimized { window_id: id },
            )
            &&& window.event(Notification::WindowDeminiaturized, None) == Some(
                Event::WindowDeminimized { window_id: id },
            )
            &&& window.event(Notification::ElementDestroyed, None) == Some(
                Event::WindowDestroyed { window_id: id, source: DestroySource::Accessibility },
            )
        }),
{
}

/// A notification is asked for again just where the application did not answer; one that
/// is registered already counts as added.
pub proof fn law_silent_applications_are_asked_again(
    asked: Seq<(Notification, Registration)>,
    notification: Notification,
    registration: Registration,
)
    ensures
        asked.push((notification, registration)).filter_map(application::worth_retrying())
            == if registration is CannotComplete {
            asked.filter_map(application::worth_retrying()).push(notification)
        } else {
            asked.filter_map(application::worth_retrying())
        },
        registration.added() <==> registration is Success || registration is AlreadyRegistered,
{
    search::lemma_filter_map_push(
        asked,
        application::worth_retrying(),
        (notification, registration),
    );
}

/// The observer of a window goes with the window; the others stay, and that of the
/// application does too.
pub proof fn law_only_the_window_observer_goes(
    contexts: Seq<ObserverType>,
    removed: ObserverType,
    which: ObserverType,
)
    ensures
        contexts.filter(application::other_than(removed)).contains(which) <==> contexts.contains(
            which,
        ) && (which != removed || which is Application),
{
    search::lemma_filtered(contexts, application::other_than(removed), which);
}

// ---------------------------------------------------------------------------
// Saving
// ---------------------------------------------------------------------------
/// A change is saved a quarter of a second after it; without one nothing is put off, and
/// where saving is switched off there is nothing to save.
pub proof fn law_changes_are_saved_soon(state: PersistenceState, now: Instant, later: Instant)
    requires
        now.nanos + 250_000_000 <= u64::MAX,
    ensures
        state.noted(true, true, now).is_due(later) <==> later.nanos >= now.nanos + 250_000_000,
        state.noted(true, true, now).dirty,
        state.noted(true, true, now).retry_delay.nanos == 1_000_000_000,
        state.noted(true, false, now) == state,
        !state.noted(false, true, now).dirty,
        !state.noted(false, true, now).is_due(later),
        !PersistenceState::clean().is_due(later),
{
}

/// A save that failed is tried again after the pause, and the pause doubles up to a
/// minute.
pub proof fn law_failed_save_waits_longer(
    state: PersistenceState,
    now: Instant,
    later: Instant,
)
    requires
        now.nanos + state.retry_delay.nanos <= u64::MAX,
    ensures
        state.failed(now).dirty,
        state.failed(now).is_due(later) <==> later.nanos >= now.nanos + state.retry_delay.nanos,
        2 * state.retry_delay.nanos <= 60_000_000_000 ==> state.failed(now).retry_delay.nanos == 2
            * state.retry_delay.nanos,
        2 * state.retry_delay.nanos > 60_000_000_000 ==> state.failed(now).retry_delay.nanos
            == 60_000_000_000,
{
}

// ---------------------------------------------------------------------------
// The loop
// ---------------------------------------------------------------------------
/// While something moves the loop sleeps for a frame; else until the nearest deadline,
/// and not at all for one that has passed.
pub proof fn law_loop_sleeps_until_the_deadline(
    activity: RuntimeActivity,
    now: Instant,
    deadline: Instant,
)
    ensures
        activity.frame_work ==> activity.spec_wait(now) is Some && activity.spec_wait(now)->0.nanos
            == 16_000_000,
        !activity.frame_work && activity.nearest_deadline == Some(deadline) && deadline.nanos
            >= now.nanos ==> activity.spec_wait(now) is Some && now.nanos
            + activity.spec_wait(now)->0.nanos == deadline.nanos,
        !activity.frame_work && activity.nearest_deadline == Some(deadline) && deadline.nanos
            < now.nanos ==> activity.spec_wait(now) is Some && activity.spec_wait(now)->0.nanos
            == 0,
        !activity.frame_work && activity.nearest_deadline is None ==> activity.spec_wait(now)
            is None,
{
}

/// Something moves while a window is repositioned or resized, a strip scrolls, or a
/// message flashes.
pub proof fn law_loop_runs_while_something_moves(work: RuntimeWork)
    ensures
        work.moves() <==> work.repositioning || work.resizing || work.scrolling
            || work.flash_messages,
{
}

/// Events are read in order up to one that ends the reading; what follows it stays.
pub proof fn law_events_are_read_in_order(
    events: Seq<Received>,
    end: Received,
    rest: Seq<Received>,
    k: int,
)
    requires
        forall|j: int|
            0 <= j < events.len() ==> (#[trigger] events[j]) is Event && !(events[j]->Event_0
                is Exit),
        end is Empty || end is Disconnected || (end is Event && end->Event_0 is Exit),
    ensures
        ({
            let queue = events.push(end) + rest;
            &&& runtime::read_events(queue).len() == events.len()
            &&& 0 <= k < events.len() ==> runtime::read_events(queue)[k] == events[k]->Event_0
            &&& runtime::unread(queue) == rest
            &&& runtime::ends_in_exit(queue) <==> !(end is Empty)
        }),
{
    let queue = events.push(end) + rest;
    let n = events.len() as int;
    let f = runtime::ends_reading();
    assert forall|j: int| 0 <= j < n implies !f(#[trigger] queue[j]) by {
        assert(queue[j] == events[j]);
    }
    assert(queue[n] == end);
    search::lemma_first_index(queue, f, n);
    assert(queue.skip(n + 1) =~= rest);
    if 0 <= k < n {
        assert(queue[k] == events[k]);
    }
}

/// The loop sleeps where nothing is to be read, nothing ends it and nothing is pending.
pub proof fn law_loop_sleeps_when_all_is_quiet(queue: Seq<Received>, quiet: bool, pending: bool)
    ensures
        runtime::sleeps(queue, quiet, pending) ==> quiet && !pending,
        runtime::sleeps(Seq::empty(), quiet, pending) <==> quiet && !pending,
{
    search::lemma_no_first_index(Seq::<Received>::empty(), runtime::ends_reading());
}

/// Of two instants the sooner one is that which does not come after the other.
pub proof fn law_sooner_comes_first(a: Instant, b: Instant)
    ensures
        runtime::spec_sooner(Some(a), Some(b)) is Some,
        runtime::spec_sooner(Some(a), Some(b))->0.nanos == if a.nanos <= b.nanos {
            a.nanos
        } else {
            b.nanos
        },
        runtime::spec_sooner(Some(a), None) == Some(a),
        runtime::spec_sooner(None, Some(b)) == Some(b),
{
}

/// A deadline comes when its time does, and the next one is the pause later.
pub proof fn law_deadline_comes_when_its_time_does(at: Instant, now: Instant, pause: u64)
    ensures
        runtime::has_come(at, at),
        now.nanos < at.nanos ==> !runtime::has_come(at, now),
        now.nanos > at.nanos ==> runtime::has_come(at, now),
        runtime::is_after(at, now, pause) ==> at.nanos - now.nanos == pause,
{
}

/// Each thing that waits for its time keeps the loop from sleeping past it: timers,
/// polls of what is new, retries, checks of strips without a display, a focus to be
/// recovered, a state to be saved, and the start itself.
pub proof fn law_each_deadline_is_awaited(work: RuntimeWork, now: Instant, at: Instant, k: int)
    ensures
        0 <= k < work.timeouts@.len() && work.timeouts@[k] == at ==> work.awaits(now, at),
        0 <= k < work.retries@.len() && work.retries@[k] == at ==> work.awaits(now, at),
        0 <= k < work.verifications@.len() && work.verifications@[k] == at ==> work.awaits(
            now,
            at,
        ),
        0 <= k < work.fresh_polls@.len() && work.fresh_polls@[k].1 && work.fresh_polls@[k].0.at
            == at ==> work.awaits(now, at),
        0 <= k < work.refreshes@.len() && work.refreshes@[k] == (at, true) ==> work.awaits(now, at),
        0 <= k < work.orphan_checks@.len() && work.orphan_checks@[k].1
            && work.orphan_checks@[k].0.at == at ==> work.awaits(now, at),
        0 <= k < work.observer_detaches@.len() && work.observer_detaches@[k].deadline == at
            ==> work.awaits(now, at),
        work.windows && !work.focused_windows && work.focus_recovery is Some
            && work.focus_recovery->0.at == at ==> work.awaits(now, at),
        work.restore == Some(at) ==> work.awaits(now, at),
        work.updater == Some(at) ==> work.awaits(now, at),
        work.persistence is Some && work.persistence->0.save_at == Some(at) ==> work.awaits(
            now,
            at,
        ),
        work.initializing && at.nanos == now.nanos + 16_000_000 ==> work.awaits(now, at),
{
    if 0 <= k < work.timeouts@.len() && work.timeouts@[k] == at {
        assert(work.timeouts@.contains(at));
    }
    if 0 <= k < work.retries@.len() && work.retries@[k] == at {
        assert(work.retries@.contains(at));
    }
    if 0 <= k < work.verifications@.len() && work.verifications@[k] == at {
        assert(work.verifications@.contains(at));
    }
    if 0 <= k < work.fresh_polls@.len() && work.fresh_polls@[k].1 && work.fresh_polls@[k].0.at
        == at {
        assert(work.fresh_polls@.contains(work.fresh_polls@[k]));
    }
    if 0 <= k < work.refreshes@.len() && work.refreshes@[k] == (at, true) {
        assert(work.refreshes@.contains((at, true)));
    }
    if 0 <= k < work.orphan_checks@.len() && work.orphan_checks@[k].1
        && work.orphan_checks@[k].0.at == at {
        assert(work.orphan_checks@.contains(work.orphan_checks@[k]));
    }
}

/// Where nothing waits nothing is awaited: what does not count, as a poll of what is not
/// new, does not keep the loop awake.
pub proof fn law_nothing_else_is_awaited(work: RuntimeWork, now: Instant, at: Instant)
    requires
        work.timeouts@.len() == 0,
        work.retries@.len() == 0,
        work.verifications@.len() == 0,
        work.observer_detaches@.len() == 0,
        forall|k: int| 0 <= k < work.fresh_polls@.len() ==> !(#[trigger] work.fresh_polls@[k]).1,
        forall|k: int| 0 <= k < work.refreshes@.len() ==> !(#[trigger] work.refreshes@[k]).1,
        forall|k: int|
            0 <= k < work.orphan_checks@.len() ==> !(#[trigger] work.orphan_checks@[k]).1,
        !work.windows || work.focused_windows || work.focus_recovery is None,
        work.restore is None,
        work.updater is None,
        work.persistence is None || work.persistence->0.save_at is None,
        !work.initializing,
    ensures
        !work.awaits(now, at),
{
}

/// What is saved changes with each part of the state on its own; the place of a window
/// that is not laid out is no part of it.
pub proof fn law_each_change_matters(
    changes: StateChanges,
    events: Seq<Event>,
    k: int,
)
    ensures
        changes.config || changes.structure || changes.strip_parents ==> changes.matter(events),
        changes.removed.strips || changes.removed.positions || changes.removed.bounds
            || changes.removed.widths || changes.removed.parents || changes.removed.displays
            || changes.removed.active_workspaces || changes.removed.active_displays
            ==> changes.matter(events),
        0 <= k < changes.geometry@.len() && !changes.geometry@[k].unmanaged ==> changes.matter(
            events,
        ),
        0 <= k < events.len() && events[k] is WindowTitleChanged ==> changes.matter(events),
{
}

/// Nothing that is saved changed where no part of the state did.
pub proof fn law_no_change_does_not_matter(changes: StateChanges, events: Seq<Event>)
    requires
        !changes.config && !changes.structure && !changes.strip_parents,
        !changes.removed.strips && !changes.removed.positions && !changes.removed.bounds,
        !changes.removed.widths && !changes.removed.parents && !changes.removed.displays,
        !changes.removed.active_workspaces && !changes.removed.active_displays,
        forall|k: int|
            0 <= k < changes.geometry@.len() ==> (#[trigger] changes.geometry@[k]).unmanaged,
        forall|k: int|
            0 <= k < events.len() ==> !(#[trigger] events[k] is WindowTitleChanged),
    ensures
        !changes.matter(events),
{
}

/// A save is tried when it is due, and at the end where there is something to save; never
/// where saving is switched off.
pub proof fn law_state_is_saved_when_due(state: PersistenceState, now: Instant, exiting: bool)
    ensures
        state.is_flushed(true, now) <==> state.dirty && state.save_at is Some && now.nanos
            >= state.save_at->0.nanos,
        !state.is_flushed(false, now),
        state.is_flushed_on_exit(exiting, true) <==> exiting && state.dirty,
        !state.is_flushed_on_exit(exiting, false),
{
}

/// What a window set up at the start is: on the strip unless it is minimized, and the
/// topmost of the first column gets the focus where the strip is shown.
pub proof fn law_setup_tells_windows_apart(
    windows: Seq<SetupWindow>,
    window: SetupWindow,
    strip: StripSetup,
    active: bool,
    columns: Seq<ColumnModel>,
    present: Option<Vec<SetupWindow>>,
)
    ensures
        window.minimized ==> windows.push(window).filter_map(setup::put_away())
            == windows.filter_map(setup::put_away()).push(window.entity) && windows.push(
            window,
        ).filter_map(setup::kept()) == windows.filter_map(setup::kept()),
        !window.minimized ==> windows.push(window).filter_map(setup::put_away())
            == windows.filter_map(setup::put_away()) && windows.push(window).filter_map(
            setup::kept(),
        ) == windows.filter_map(setup::kept()).push(window.entity),
        setup::is_setup(strip, active, columns, present) && present is Some && active
            && columns.len() > 0 && columns[0].windows().len() > 0 ==> strip.focus == Some(
            columns[0].windows()[0],
        ),
        setup::is_setup(strip, active, columns, present) && (!active || present is None
            || columns.len() == 0) ==> strip.focus is None,
        setup::set_up(columns, None) == columns,
{
    search::lemma_filter_map_push(windows, setup::put_away(), window);
    search::lemma_filter_map_push(windows, setup::kept(), window);
}

/// Windows that are missing on a strip come to its end in their order, and one that is
/// there stays where it is.
pub proof fn law_missing_windows_come_to_the_end(
    columns: Seq<ColumnModel>,
    windows: Seq<Entity>,
    window: Entity,
    i: int,
    p: int,
)
    ensures
        ({
            let before = setup::with_missing(columns, windows);
            let after = setup::with_missing(columns, windows.push(window));
            &&& places::is_absent(before, window) ==> after == before.push(
                ColumnModel::Single(window),
            )
            &&& places::only_at(before, window, i, p) ==> after == before
        }),
        setup::with_missing(columns, Seq::empty()) == columns,
{
    let before = setup::with_missing(columns, windows);
    assert(windows.push(window).drop_last() =~= windows);
    if places::is_absent(before, window) {
        places::law_absent_window_is_not_found(before, window);
    }
    if places::only_at(before, window, i, p) {
        places::law_window_is_found_where_it_stands(before, window, i, p);
    }
}

/// A display at the start has a strip for each of its spaces, in order, at its corner;
/// the strip of the space that is used is the one that is shown.
pub proof fn law_display_is_set_up(
    display: DisplaySetup,
    scanned: ScannedDisplay,
    active_display: u32,
    active_space: WorkspaceId,
    k: int,
)
    requires
        setup::sets_up(display, scanned, active_display, active_space),
        0 <= k < scanned.spaces@.len(),
    ensures
        display.id == scanned.id,
        display.origin.x == scanned.bounds.min.x && display.origin.y == scanned.bounds.min.y,
        display.active <==> scanned.id == active_display,
        display.strips@.len() == scanned.spaces@.len(),
        display.strips@[k].0 == scanned.spaces@[k],
        display.strips@[k].1 <==> scanned.spaces@[k] == active_space,
{
    assert(display.strips@[k] == (scanned.spaces@[k], scanned.spaces@[k] == active_space));
}

/// Applications are made for the processes up to the first that is refused.
pub proof fn law_applications_come_up_to_a_refusal<A>(
    processes: Seq<(Entity, Option<A>)>,
    k: int,
)
    ensures
        0 <= k < processes.len() && processes[k].1 is None && (forall|j: int|
            0 <= j < k ==> (#[trigger] processes[j]).1 is Some) ==> lifecycle::created_ahead(
            processes,
        ) == k,
        (forall|j: int| 0 <= j < processes.len() ==> (#[trigger] processes[j]).1 is Some)
            ==> lifecycle::created_ahead(processes) == processes.len(),
{
    let f = lifecycle::is_refused::<A>();
    if 0 <= k < processes.len() && processes[k].1 is None && (forall|j: int|
        0 <= j < k ==> (#[trigger] processes[j]).1 is Some) {
        search::lemma_first_index(processes, f, k);
    }
    if forall|j: int| 0 <= j < processes.len() ==> (#[trigger] processes[j]).1 is Some {
        search::lemma_no_first_index(processes, f);
    }
}

/// Of the windows that an application lists those are added that are not known.
pub proof fn law_unknown_windows_are_added(listed: Seq<WinID>, known: Seq<WinID>, id: WinID)
    ensures
        listed.filter(setup::is_new(known)).contains(id) <==> listed.contains(id)
            && !known.contains(id),
{
    search::lemma_filtered(listed, setup::is_new(known), id);
}

/// After a save that worked there is nothing to save; after one that did not, or where
/// there is nowhere to save, there still is.
pub proof fn law_save_that_worked_is_done<F: FnOnce() -> bool>(
    before: PersistenceState,
    save: F,
    now: Instant,
    after: PersistenceState,
)
    ensures
        persistence::flushed(before, Some(save), now, after) ==> (after.dirty ==> call_ensures(
            save,
            (),
            false,
        ) && after == before.failed(now)) && (!after.dirty ==> call_ensures(save, (), true)),
        persistence::flushed(before, None::<F>, now, after) ==> after.dirty && after
            == before.failed(now),
{
}

/// The windows of an application are all taken over where they could be found: those that
/// are shown are added, and those elsewhere are searched for, if there are any.
pub proof fn law_found_windows_are_taken_over<W>(
    shown: Seq<W>,
    elsewhere: Seq<W>,
    windows: ExistingWindows<W>,
)
    ensures
        lifecycle::existing(Some((shown, elsewhere)), windows) ==> windows.spawn is Some
            && windows.spawn->0@ == shown && (windows.search is Some <==> elsewhere.len() > 0) && (
        windows.search is Some ==> windows.search->0@ == elsewhere),
        lifecycle::existing(None::<(Seq<W>, Seq<W>)>, windows) ==> windows.spawn is None
            && windows.search is None,
{
}

/// The window above the one that is dragged by its upper edge ends where that begins, if
/// it keeps a height; its own place stays.
pub proof fn law_window_above_ends_where_the_dragged_begins(window: FrameEntry, top: i32)
    requires
        i32::MIN <= top - window.position.y <= i32::MAX,
    ensures
        top > window.position.y ==> frames::ends_at(window, top).position.y + frames::ends_at(
            window,
            top,
        ).bounds.y == top,
        top <= window.position.y ==> frames::ends_at(window, top) == window,
        frames::ends_at(window, top).position == window.position,
        frames::ends_at(window, top).bounds.x == window.bounds.x,
        frames::ends_at(window, top).entity == window.entity,
{
}

/// An upper edge is dragged where the top of a window has moved and its bottom has not,
/// but for two points.
pub proof fn law_upper_edge_is_dragged(window: FrameEntry, frame: IRect)
    requires
        window.bounds.y >= 0,
    ensures
        frames::drags_top_edge(window, frame) <==> window.position.y != frame.min.y
            && window.position.y + window.bounds.y - 2 <= frame.max.y <= window.position.y
            + window.bounds.y + 2,
{
}

} // verus!
