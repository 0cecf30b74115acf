//! What follows when windows get the focus, float, are minimized or are resized.
use std::cmp::Ordering;

use paneru::clock::Instant;
use paneru::events::{DestroySource, Event, ProcessSerialNumber};
use paneru::geometry::{Entity, IRect, IVec2};
use paneru::layout::LayoutStrip;
use paneru::number::Number;
use paneru::observation::ProcessEntry;
use paneru::triggers::focus::{
    front_application, front_switched_trigger, give_away_focus, theme_change_trigger,
    window_focused_trigger, DimmableWindow, FocusContext, FocusTarget, FrontSwitch,
};
use paneru::triggers::defaults::{
    apply_window_defaults, rule_size, DefaultStep, GridRatios, PaddedDisplay, SharedSize, WindowRules,
};
use paneru::triggers::managing::{
    float_window, window_destroyed_trigger, window_managed_trigger, window_minimized_trigger,
    window_removal_trigger, window_unmanaged_trigger, ManagedAgain, OwningApp,
    PreviousManagedStrip, ReportedWindow, UnmanagedWindow, VirtualStrip,
};
use paneru::triggers::messages::{
    apply_window_positions, dispatch_application_messages, mission_control_trigger,
    spawn_window_trigger, ApplicationWindows, NewFocus, NewWindow, Newcomer, ScrollableStrip,
    WindowMark,
};
use paneru::triggers::resize::{fuzzy_equal, window_resize_verifier};
use paneru::triggers::{Unmanaged, WindowDisposition};
use paneru::workspace::WorkspaceEntry;

fn strip_of(id: u64, windows: &[u64]) -> LayoutStrip {
    let mut strip = LayoutStrip::new(id);
    for window in windows {
        strip.append(Entity(*window));
    }
    strip
}

fn virtual_strip(id: u64, virtual_index: u32, active: bool, windows: &[u64]) -> VirtualStrip {
    VirtualStrip { strip: strip_of(id, windows), virtual_index, active }
}

fn half() -> Number {
    Number { bits: 0.5f64.to_bits() }
}

fn padded_display() -> PaddedDisplay {
    let bounds = IRect { min: IVec2::new(0, 0), max: IVec2::new(1000, 800) };
    PaddedDisplay { bounds, pad_left: 10, pad_right: 20 }
}

/// Windows side by side, a hundred points each, by their numbers.
fn side_by_side(entity: Entity) -> Option<IRect> {
    let x = entity.0 as i32 * 100;
    Some(IRect::new(x, 0, x + 100, 100))
}

const TARGET: FocusTarget = FocusTarget {
    entity: Entity(1),
    has_app: true,
    frontmost: true,
    app_focus: None,
    unmanaged: None,
    disposition: Some(WindowDisposition::Managed),
};

const CONTEXT: FocusContext =
    FocusContext { focused: None, skip_reshuffle: false, initializing: false };

fn workspaces() -> Vec<WorkspaceEntry> {
    vec![
        WorkspaceEntry { strip: strip_of(7, &[2]), entity: Entity(70), active: true },
        WorkspaceEntry { strip: strip_of(8, &[1]), entity: Entity(80), active: false },
    ]
}

#[test]
fn a_focused_window_is_shown_and_recorded() {
    let strips = workspaces();
    let effects = window_focused_trigger(5, Some(TARGET), &strips, CONTEXT);
    assert!(effects.mark && effects.passthrough && effects.target);
    assert_eq!(effects.activate, Some(Entity(80)));
    assert_eq!(effects.front, Some(1));
    assert_eq!(effects.record, Some(8));
    assert!(!effects.reshuffle && !effects.retry);
    let again = FocusContext { focused: Some(5), ..CONTEXT };
    let effects = window_focused_trigger(5, Some(TARGET), &strips, again);
    assert!(effects.reshuffle && !effects.mark);
    assert!(window_focused_trigger(5, None, &strips, CONTEXT).retry);
}

#[test]
fn a_stale_focus_event_only_updates_the_keys() {
    let strips = workspaces();
    let stale = FocusTarget { app_focus: Some(6), ..TARGET };
    let effects = window_focused_trigger(5, Some(stale), &strips, CONTEXT);
    assert!(effects.passthrough);
    assert!(!effects.mark && !effects.target);
    assert_eq!(effects.record, None);
    let hidden = FocusTarget { unmanaged: Some(Unmanaged::Hidden), ..TARGET };
    let effects = window_focused_trigger(5, Some(hidden), &strips, CONTEXT);
    assert!(effects.resend);
    assert_eq!(effects.restore, Some(WindowDisposition::Managed));
    assert!(!effects.mark);
}

#[test]
fn the_focus_goes_to_the_neighbour_nearest_to_the_middle() {
    let strip = strip_of(1, &[0, 1, 2, 3]);
    let known: Vec<Entity> = (0..4).map(Entity).collect();
    let viewport = IRect::new(0, 0, 400, 100);
    let heir = give_away_focus(Entity(1), false, &strip, &viewport, &side_by_side, &known);
    assert_eq!(heir, Some(Entity(2)));
    let none = give_away_focus(Entity(1), true, &strip, &viewport, &side_by_side, &known);
    assert_eq!(none, None);
    let unknown = give_away_focus(Entity(1), false, &strip, &viewport, &side_by_side, &vec![]);
    assert_eq!(unknown, None);
}

#[test]
fn an_application_that_comes_to_the_front_brings_its_window() {
    let psn = ProcessSerialNumber { high: 0, low: 1 };
    let process = |applications| ProcessEntry { psn, entity: Entity(1), applications };
    assert_eq!(front_application(psn, &vec![process(vec![Entity(5)])]), Some(Entity(5)));
    assert_eq!(front_application(psn, &vec![process(vec![])]), None);
    assert_eq!(front_application(psn, &vec![]), None);
    assert_eq!(
        front_switched_trigger(Some(4), Some(5)),
        FrontSwitch::Focus { window_id: 4, bring_into_view: true }
    );
    assert_eq!(
        front_switched_trigger(Some(4), Some(4)),
        FrontSwitch::Focus { window_id: 4, bring_into_view: false }
    );
    assert_eq!(
        front_switched_trigger(Some(4), None),
        FrontSwitch::Focus { window_id: 4, bring_into_view: false }
    );
    assert_eq!(front_switched_trigger(None, Some(4)), FrontSwitch::Retry);
}

#[test]
fn all_but_the_focused_window_are_dimmed_with_the_theme() {
    let window = |id, focused| DimmableWindow { id, unmanaged: None, focused };
    let windows = vec![window(1, false), window(2, true), window(3, false)];
    let mut dark = false;
    assert_eq!(theme_change_trigger(&mut dark, false, &windows), vec![]);
    assert_eq!(theme_change_trigger(&mut dark, true, &windows), vec![1, 3]);
    assert!(dark);
}

#[test]
fn a_window_that_is_gone_leaves_its_strip() {
    let mut strips = vec![virtual_strip(1, 0, true, &[1, 2]), virtual_strip(1, 1, false, &[3])];
    window_removal_trigger(Entity(3), &mut strips);
    assert_eq!(strips[0].strip.len(), 2);
    assert_eq!(strips[1].strip.len(), 0);
}

#[test]
fn a_floating_window_is_made_smaller_and_pops_out() {
    let display = IRect::new(0, 0, 1000, 1000);
    let reframing = float_window(&IRect::new(0, 0, 1000, 1000), &display);
    assert_eq!(reframing.resize, Some(IVec2::new(800, 800)));
    let place = reframing.reposition.expect("it pops out");
    assert!(place.x >= 0 && place.y >= 0 && place.x + 800 <= 1000 && place.y + 800 <= 1000);
    let small = float_window(&IRect::new(100, 100, 200, 200), &display);
    assert_eq!(small.resize, None);
}

#[test]
fn a_window_that_floats_leaves_the_strips_and_its_observers() {
    let window = UnmanagedWindow {
        entity: Entity(1),
        unmanaged: Some(Unmanaged::Floating),
        app: Some(OwningApp { entity: Entity(50), observed: true, frontmost: false }),
        frame: Some(IRect::new(0, 0, 1000, 1000)),
        grid: None,
        floats_by_rule: false,
    };
    let now = Instant { nanos: 0 };
    let display = IRect::new(0, 0, 1000, 1000);
    let mut strips = vec![virtual_strip(1, 0, true, &[1, 2])];
    let (detachment, reframing) = window_unmanaged_trigger(
        &window,
        &mut strips,
        &vec![(Entity(1), Entity(50))],
        &display,
        false,
        || true,
        || true,
        now,
    );
    assert_eq!(strips[0].strip.all_windows(), vec![Entity(2)]);
    assert!(detachment.unwrap().unmark);
    assert_eq!(reframing.resize, Some(IVec2::new(800, 800)));
    // The application of another window that is laid out stays observed.
    let mut strips = vec![virtual_strip(1, 0, true, &[1, 2])];
    let (detachment, _) = window_unmanaged_trigger(
        &window,
        &mut strips,
        &vec![(Entity(1), Entity(50)), (Entity(2), Entity(50))],
        &display,
        true,
        || true,
        || panic!("it is still needed"),
        now,
    );
    assert!(!detachment.unwrap().unmark);
    // One that is minimized stays where it is for now.
    let minimized = UnmanagedWindow { unmanaged: Some(Unmanaged::Minimized), ..window };
    let mut strips = vec![virtual_strip(1, 0, true, &[1, 2])];
    let (detachment, reframing) = window_unmanaged_trigger(
        &minimized,
        &mut strips,
        &vec![],
        &display,
        false,
        || panic!("it stays"),
        || panic!("it stays"),
        now,
    );
    assert!(detachment.is_none());
    assert_eq!((reframing.resize, reframing.reposition), (None, None));
    assert_eq!(strips[0].strip.len(), 2);
}

#[test]
fn a_window_returns_to_where_it_was_minimized() {
    let known: Vec<Entity> = (0..4).map(Entity).collect();
    let viewport = IRect::new(0, 0, 400, 100);
    let mut strips = vec![virtual_strip(1, 0, true, &[0, 1, 2])];
    let minimized = window_minimized_trigger(
        Entity(1),
        Some(Unmanaged::Minimized),
        false,
        &mut strips,
        &viewport,
        &side_by_side,
        &known,
    )
    .unwrap();
    assert_eq!(strips[0].strip.all_windows(), vec![Entity(0), Entity(2)]);
    assert_eq!(
        minimized.previous,
        Some(PreviousManagedStrip { workspace_id: 1, virtual_index: 0, index: 1 })
    );
    assert_eq!(minimized.heirs, vec![Some(Entity(2))]);
    let outcome = window_managed_trigger(
        Entity(1),
        Some(WindowDisposition::Managed),
        false,
        false,
        None,
        None,
        &padded_display(),
        minimized.previous,
        &mut strips,
        &side_by_side,
    );
    assert_eq!(outcome, (ManagedAgain::Placed, None));
    assert_eq!(strips[0].strip.all_windows(), vec![Entity(0), Entity(1), Entity(2)]);
    let ignored = window_managed_trigger(
        Entity(1),
        Some(WindowDisposition::Floating),
        false,
        false,
        None,
        Some(half()),
        &padded_display(),
        None,
        &mut strips,
        &side_by_side,
    );
    assert_eq!(ignored, (ManagedAgain::Ignored, None));
    let (_, size) = window_managed_trigger(
        Entity(1),
        Some(WindowDisposition::Managed),
        false,
        false,
        None,
        Some(half()),
        &padded_display(),
        None,
        &mut strips,
        &side_by_side,
    );
    let asked = SharedSize { ratio: half(), padded_width: 970, height: 800 };
    assert_eq!(size, Some(asked));
    let (observed, size) = window_managed_trigger(
        Entity(1),
        Some(WindowDisposition::Managed),
        false,
        true,
        None,
        Some(half()),
        &padded_display(),
        None,
        &mut strips,
        &side_by_side,
    );
    assert_eq!((observed, size), (ManagedAgain::Observed, None));
    let none = window_minimized_trigger(
        Entity(1),
        Some(Unmanaged::Floating),
        false,
        &mut strips,
        &viewport,
        &side_by_side,
        &known,
    );
    assert!(none.is_none());
}

fn mark(entity: u64, id: i32, unmanaged: Option<Unmanaged>) -> WindowMark {
    WindowMark {
        entity: Entity(entity),
        id,
        unmanaged,
        disposition: Some(WindowDisposition::Managed),
    }
}

#[test]
fn messages_of_applications_change_the_marks() {
    let windows = vec![mark(1, 7, None), mark(2, 8, Some(Unmanaged::Hidden)), mark(3, 9, None)];
    let applications =
        vec![ApplicationWindows { pid: 4, windows: vec![Entity(1), Entity(2), Entity(3)] }];
    assert_eq!(
        dispatch_application_messages(&Event::WindowMinimized { window_id: 7 }, &windows, &applications),
        vec![(Entity(1), Some(Unmanaged::Minimized))]
    );
    assert_eq!(
        dispatch_application_messages(&Event::ApplicationHidden { pid: 4 }, &windows, &applications),
        vec![(Entity(1), Some(Unmanaged::Hidden)), (Entity(3), Some(Unmanaged::Hidden))]
    );
    assert_eq!(
        dispatch_application_messages(&Event::ApplicationVisible { pid: 4 }, &windows, &applications),
        vec![(Entity(2), None)]
    );
    assert_eq!(
        dispatch_application_messages(&Event::ApplicationHidden { pid: 5 }, &windows, &applications),
        vec![]
    );
    assert_eq!(WindowDisposition::Managed.unmanaged(), None);
    assert_eq!(WindowDisposition::Floating.unmanaged(), Some(Unmanaged::Floating));
    assert_eq!(WindowDisposition::Passthrough.unmanaged(), Some(Unmanaged::Passthrough));
}

#[test]
fn windows_that_mission_control_moved_leave_the_strip() {
    let scrollable = |windows, entity, active, scrolling| ScrollableStrip {
        strip: strip_of(1, windows),
        entity: Entity(entity),
        active,
        scrolling,
    };
    let mut strips =
        vec![scrollable(&[1, 2], 10, true, true), scrollable(&[3], 20, false, false)];
    let windows = vec![(Entity(1), 7), (Entity(2), 8), (Entity(3), 9)];
    let mut active = false;
    let open = Event::MissionControlShowAllWindows;
    let stopped = mission_control_trigger(&open, &mut active, &mut strips, &windows, None);
    assert_eq!(stopped, vec![Entity(10)]);
    assert!(active);
    let close = Event::MissionControlExit;
    let present = vec![8];
    let stopped =
        mission_control_trigger(&close, &mut active, &mut strips, &windows, Some(&present));
    assert_eq!(stopped, vec![]);
    assert!(!active);
    assert_eq!(strips[0].strip.all_windows(), vec![Entity(2)]);
    assert_eq!(strips[1].strip.all_windows(), vec![Entity(3)]);
}

#[test]
fn new_windows_are_added_last_first() {
    let new = |id, pid| NewWindow { id, pid };
    let added = spawn_window_trigger(
        &vec![new(1, Some(4)), new(2, Some(4)), new(3, None), new(5, Some(6)), new(7, Some(4))],
        &vec![2],
        &vec![(4, Entity(40))],
    );
    assert_eq!(added, vec![(7, Entity(40)), (1, Entity(40))]);
}

#[test]
fn a_new_window_is_placed_next_to_the_focused_one() {
    let newcomer = Newcomer {
        entity: Entity(9),
        disposition: WindowDisposition::Managed,
        tabbed: false,
        restoring: false,
        insertion: None,
        dont_focus: false,
    };
    let mut strips = vec![virtual_strip(1, 0, true, &[1, 2, 3])];
    let next = apply_window_positions(&newcomer, &mut strips, Some(Entity(1)), false);
    assert_eq!(
        strips[0].strip.all_windows(),
        vec![Entity(1), Entity(9), Entity(2), Entity(3)]
    );
    assert!(next.observe);
    assert_eq!(next.mark, None);
    let quiet = Newcomer { dont_focus: true, insertion: Some(0), ..newcomer };
    let mut strips = vec![virtual_strip(1, 0, true, &[1])];
    let next = apply_window_positions(&quiet, &mut strips, Some(Entity(1)), false);
    assert_eq!(strips[0].strip.all_windows(), vec![Entity(9), Entity(1)]);
    assert_eq!(next.focus, NewFocus::Keep(Entity(1)));
    let floating = Newcomer { disposition: WindowDisposition::Floating, ..newcomer };
    let mut strips = vec![virtual_strip(1, 0, true, &[1])];
    let next = apply_window_positions(&floating, &mut strips, Some(Entity(1)), false);
    assert_eq!(strips[0].strip.all_windows(), vec![Entity(1)]);
    assert_eq!(next.mark, Some(Unmanaged::Floating));
}

#[test]
fn sizes_are_compared_with_one_point_of_slack() {
    assert_eq!(fuzzy_equal(100, 101), Ordering::Equal);
    assert_eq!(fuzzy_equal(101, 100), Ordering::Equal);
    assert_eq!(fuzzy_equal(102, 100).reverse(), fuzzy_equal(100, 102));
    assert_ne!(fuzzy_equal(102, 100), Ordering::Equal);
}

#[test]
fn a_window_that_stays_wide_widens_its_column() {
    let mut strip = strip_of(1, &[1, 2]);
    strip.stack(Entity(2)).unwrap();
    let strips = vec![strip];
    let mut bounds = IVec2::new(50, 100);
    let resized = window_resize_verifier(
        Entity(1),
        true,
        Some(IVec2::new(180, 100)),
        &mut bounds,
        &strips,
        Some(180),
        &side_by_side,
    );
    assert_eq!(bounds, IVec2::new(180, 100));
    assert_eq!(resized, vec![(Entity(2), IVec2::new(180, 100))]);
    let mut bounds = IVec2::new(50, 100);
    let resized = window_resize_verifier(
        Entity(1),
        false,
        Some(IVec2::new(180, 100)),
        &mut bounds,
        &strips,
        Some(180),
        &side_by_side,
    );
    assert_eq!(bounds, IVec2::new(50, 100));
    assert_eq!(resized, vec![]);
}

#[test]
fn a_rule_asks_for_a_share_between_the_paddings() {
    let size = rule_size(Some(half()), &padded_display()).unwrap();
    assert_eq!((size.padded_width, size.height), (970, 800));
    assert_eq!(rule_size(None, &padded_display()), None);
}

#[test]
fn only_managed_windows_get_padding() {
    let rules = WindowRules {
        disposition: WindowDisposition::Managed,
        grid: Some(GridRatios { x: half(), y: half(), width: half(), height: half() }),
        vertical_padding: 70,
        horizontal_padding: -3,
        width_ratio: Some(half()),
    };
    let steps = |rules: WindowRules, initializing| {
        apply_window_defaults(Some(rules), &padded_display(), initializing)
    };
    let padded = vec![
        DefaultStep::PadVertically(50),
        DefaultStep::PadHorizontally(0),
        DefaultStep::Note,
    ];
    let mut widened = padded.clone();
    widened.extend([
        DefaultStep::Measure,
        DefaultStep::Widen { ratio: half(), padded_width: 970 },
        DefaultStep::Measure,
    ]);
    assert_eq!(steps(rules, true), widened);
    assert_eq!(steps(WindowRules { width_ratio: None, ..rules }, false), padded);
    let floating = WindowRules { disposition: WindowDisposition::Floating, ..rules };
    let placed =
        DefaultStep::PlaceOnGrid { ratios: rules.grid.unwrap(), width: 1000, height: 800 };
    assert_eq!(steps(floating, false), vec![placed]);
    assert_eq!(steps(floating, true), vec![]);
    assert_eq!(steps(WindowRules { grid: None, ..floating }, false), vec![]);
    let passing = WindowRules { disposition: WindowDisposition::Passthrough, ..rules };
    assert_eq!(steps(passing, false), vec![]);
    assert_eq!(apply_window_defaults(None, &padded_display(), false), vec![]);
}

#[test]
fn a_window_that_still_answers_is_not_destroyed() {
    let strip = strip_of(1, &[0, 1, 2]);
    let viewport = IRect { min: IVec2::new(0, 0), max: IVec2::new(300, 100) };
    let app = OwningApp { entity: Entity(50), observed: true, frontmost: false };
    let window = ReportedWindow {
        id: 7,
        entity: Entity(1),
        answers: false,
        app: Some(app),
        tabbed: false,
    };
    let known = vec![Entity(0), Entity(1), Entity(2)];
    let run = |window_id, window: ReportedWindow| {
        let source = DestroySource::Accessibility;
        window_destroyed_trigger(
            &Event::WindowDestroyed { window_id, source },
            &vec![window],
            &vec![(Entity(1), Entity(50))],
            &strip,
            &viewport,
            &side_by_side,
            &known,
            || true,
            || true,
            Instant { nanos: 0 },
        )
    };
    let gone = run(7, window).unwrap();
    assert_eq!(gone.entity, Entity(1));
    assert!(gone.detachment.unmark);
    assert_eq!(gone.detachment.retry, None);
    assert!(gone.heir.is_some_and(|heir| heir != Entity(1)));
    assert!(run(8, window).is_none());
    assert!(run(7, ReportedWindow { answers: true, ..window }).is_none());
    assert!(run(7, ReportedWindow { app: None, ..window }).is_none());
    assert_eq!(run(7, ReportedWindow { tabbed: true, ..window }).unwrap().heir, None);
}
