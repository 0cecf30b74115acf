//! Displays, spaces and the systems around them.
use paneru::config::{Config, MainOptions, RawConfig};
use paneru::events::{Event, ProcessSerialNumber};
use paneru::geometry::{Entity, IRect, IVec2};
use paneru::layout::LayoutStrip;
use paneru::layout_ops::WorkspaceStrip;
use paneru::number::Number;
use paneru::reconcile::{
    cleanup_active_display_marker, display_change_handler, move_display, previous_parents,
    read_display_properties, reconcile_displays, reconcile_step, refresh_display_layout,
    refresh_strip_layout, remove_display, reparent_existing_workspaces,
    scan_is_complete, DisplayFrame, DisplayProperties, DisplayReconcileState, FloatingLayer, KnownDisplay,
    MarkedDisplay, PlacedStrip, ScannedDisplay, StripOrigins, StripPlace, WorkspaceChange, DISPLAY_RETRIES,
    DISPLAY_RETRY_NANOS, DISPLAY_SETTLE_NANOS, DISPLAY_VERIFY_NANOS,
};
use paneru::systems::frames::{
    animate_entities, animate_resize_entities, reposition_dragged_window, resize_is_deferred, window_update_frame, AnimationStep,
    DragFollowUp, DraggedWindow, FrameEntry,
};
use paneru::systems::lifecycle::{
    add_existing_application, add_existing_process, displays_rearranged, fresh_marker_cleanup, timeout_ticker,
    DisplayStep, FreshEntry, TimeoutEntry,
};
use paneru::systems::overlays::{
    update_overlays, BorderRadiusOption, Color, FocusedWindow, OverlayAction, OverlaySettings,
};
use paneru::systems::setup::{
    add_launched_application, add_launched_process, add_launched_processes,
    dispatch_toplevel_triggers, display_changes_watcher, finish_setup, gather_displays,
    gather_initial_processes, next_pump_timeout, Dispatch, FreshProcess, LaunchStep, Launched,
    SetupWindow, WatchedDisplay,
};
use paneru::workspace::{
    active_workspace, find_orphaned_workspaces, receive_windows, refresh_workspace_window_sizes, window_to_reshuffle,
    windows_not_in_strip, workspace_change, workspace_change_watcher, workspace_created,
    workspace_destroyed, AttachedStrip, NativeFullscreenMarker, Orphan, OrphanAction,
    ShownSpace, SpaceSwitch, WindowEntry, WorkspaceEntry,
};

fn number(value: f64) -> Number {
    Number { bits: value.to_bits() }
}

fn strip_of(id: u64, windows: &[u64]) -> LayoutStrip {
    let mut strip = LayoutStrip::new(id);
    for window in windows {
        strip.append(Entity(*window));
    }
    strip
}

fn screen() -> IRect {
    IRect { min: IVec2::new(30, 40), max: IVec2::new(1030, 840) }
}

fn scanned(id: u32, spaces: &[u64]) -> ScannedDisplay {
    ScannedDisplay { id, bounds: screen(), spaces: spaces.to_vec() }
}

fn known(id: u32, entity: u64) -> KnownDisplay {
    KnownDisplay { id, entity: Entity(entity) }
}

#[test]
fn displays_are_scanned_once_they_have_settled() {
    let mut state = DisplayReconcileState::default();
    assert!(!state.tick(&vec![], DISPLAY_SETTLE_NANOS));
    assert!(!state.tick(&vec![Event::DisplayAdded { display_id: 1 }], 1));
    assert!(!state.tick(&vec![], DISPLAY_SETTLE_NANOS - 1));
    // Another change starts the pause anew.
    assert!(!state.tick(&vec![Event::DisplayMoved { display_id: 1 }], 1));
    assert!(!state.tick(&vec![Event::SpaceChanged], DISPLAY_SETTLE_NANOS - 1));
    assert!(state.tick(&vec![], 1));
    // The first scan that is applied is verified by another.
    assert!(state.scanned(true));
    assert!(!state.tick(&vec![], DISPLAY_VERIFY_NANOS - 1));
    assert!(state.tick(&vec![], 1));
    assert!(state.scanned(true));
    assert!(!state.tick(&vec![], u64::MAX));
}

#[test]
fn an_incomplete_scan_is_repeated_a_few_times_and_then_applied() {
    let mut state = DisplayReconcileState::default();
    state.tick(&vec![Event::DisplayRemoved { display_id: 1 }], 0);
    assert!(state.tick(&vec![], DISPLAY_SETTLE_NANOS));
    for _ in 0..DISPLAY_RETRIES {
        assert!(!state.scanned(false));
        assert!(state.tick(&vec![], DISPLAY_RETRY_NANOS));
    }
    assert!(state.scanned(false));
    assert!(scan_is_complete(&vec![scanned(1, &[7])]));
    assert!(!scan_is_complete(&vec![scanned(1, &[])]));
    assert!(!scan_is_complete(&vec![]));
}

#[test]
fn a_scan_tells_what_is_gone_new_and_kept() {
    let plan = reconcile_displays(
        &vec![scanned(2, &[1]), scanned(3, &[2])],
        &vec![known(1, 10), known(2, 20)],
    );
    assert_eq!((plan.removed, plan.added, plan.kept), (vec![1], vec![3], vec![2]));
}

#[test]
fn an_incomplete_scan_takes_no_display_for_gone() {
    let mut state = DisplayReconcileState::default();
    let on = vec![known(1, 10), known(2, 20)];
    let added = vec![Event::DisplayAdded { display_id: 3 }];
    let complete = || vec![scanned(2, &[1]), scanned(3, &[2])];
    let blind = || vec![scanned(2, &[]), scanned(3, &[2])];
    assert!(reconcile_step(&mut state, &vec![], u64::MAX, &complete(), &on).is_none());
    assert!(reconcile_step(&mut state, &added, 0, &complete(), &on).is_none());
    assert!(reconcile_step(&mut state, &vec![], DISPLAY_SETTLE_NANOS, &blind(), &on).is_none());
    assert_eq!(state.retries_left, DISPLAY_RETRIES - 1);
    let plan = reconcile_step(&mut state, &vec![], DISPLAY_RETRY_NANOS, &complete(), &on).unwrap();
    assert_eq!((plan.removed, plan.added, plan.kept), (vec![1], vec![3], vec![2]));
    // It is verified once more, and that is all.
    assert!(reconcile_step(&mut state, &vec![], DISPLAY_VERIFY_NANOS, &complete(), &on).is_some());
    assert!(reconcile_step(&mut state, &vec![], u64::MAX, &complete(), &on).is_none());
}

#[test]
fn a_scan_that_stays_incomplete_is_applied_in_the_end() {
    let mut state = DisplayReconcileState::default();
    let on = vec![known(1, 10)];
    let removed = vec![Event::DisplayRemoved { display_id: 1 }];
    reconcile_step(&mut state, &removed, 0, &vec![], &on);
    let mut waited = DISPLAY_SETTLE_NANOS;
    for _ in 0..DISPLAY_RETRIES {
        assert!(reconcile_step(&mut state, &vec![], waited, &vec![], &on).is_none());
        waited = DISPLAY_RETRY_NANOS;
    }
    let plan = reconcile_step(&mut state, &vec![], waited, &vec![], &on).unwrap();
    assert_eq!(plan.removed, vec![1]);
}

#[test]
fn strips_follow_their_spaces() {
    let place = |id, entity, parent: Option<u64>| StripPlace {
        id,
        entity: Entity(entity),
        parent: parent.map(Entity),
    };
    let strips = vec![
        place(1, 11, Some(100)),
        place(2, 12, None),
        place(3, 13, Some(200)),
    ];
    assert_eq!(
        reparent_existing_workspaces(&vec![1, 2, 3, 4], Entity(100), &screen(), &strips),
        vec![
            WorkspaceChange::Reparent(Entity(12)),
            WorkspaceChange::Reparent(Entity(13)),
            WorkspaceChange::Spawn(4, IVec2::new(30, 40)),
        ]
    );
    assert_eq!(remove_display(Entity(200), &strips), vec![Entity(13)]);
    assert_eq!(move_display(&vec![known(1, 10), known(2, 20)], 2), Some(Entity(20)));
    assert_eq!(move_display(&vec![known(1, 10)], 2), None);
}

#[test]
fn one_display_is_marked() {
    let displays = vec![
        MarkedDisplay { id: 1, entity: Entity(10), active: true },
        MarkedDisplay { id: 2, entity: Entity(20), active: false },
    ];
    assert_eq!(display_change_handler(2, &displays), vec![Entity(20)]);
    assert_eq!(display_change_handler(1, &displays), vec![]);
    assert_eq!(cleanup_active_display_marker(Entity(20), &displays), vec![Entity(10)]);
}

#[test]
fn a_strip_moves_with_its_display() {
    let strip = strip_of(1, &[1, 2]);
    let origins = StripOrigins {
        position: IVec2::new(-100, 30),
        previous_origin: None,
        target: Some(IVec2::new(-50, 30)),
    };
    let display = IRect::new(1000, 0, 2000, 800);
    let before = Some(IRect::new(0, 30, 1000, 830));
    let refresh = refresh_strip_layout(&strip, &origins, &display, &before, Some(Entity(2)), 5);
    assert_eq!(refresh.origins.position, IVec2::new(900, 0));
    assert_eq!(refresh.origins.target, Some(IVec2::new(950, 0)));
    assert_eq!(refresh.ensure_visible, Some(Entity(2)));
    assert!(!refresh.forget_offset);
    assert_eq!(refresh.windows, vec![Entity(1), Entity(2)]);
    // A hidden strip is parked at the corner, and one from nowhere starts anew.
    let hidden = StripOrigins { previous_origin: Some(IVec2::new(0, 30)), ..origins };
    let refresh = refresh_strip_layout(&strip, &hidden, &display, &None, Some(Entity(9)), 5);
    assert_eq!(refresh.origins.position, IVec2::new(1995, 795));
    assert_eq!(refresh.ensure_visible, None);
    assert!(refresh.forget_offset);
}

#[test]
fn what_cannot_be_read_of_a_screen_stays() {
    let mut properties =
        DisplayProperties { notch_height: 3, dock: Some("left"), menubar_height_override: Some(9) };
    read_display_properties(&mut properties, None, None, None);
    assert_eq!(properties.notch_height, 3);
    assert_eq!(properties.dock, Some("left"));
    assert_eq!(properties.menubar_height_override, Some(9));
    read_display_properties(&mut properties, Some(32), Some("bottom"), Some(None));
    assert_eq!(properties.notch_height, 32);
    assert_eq!(properties.dock, Some("bottom"));
    assert_eq!(properties.menubar_height_override, None);
}

#[test]
fn the_floating_layer_can_be_flipped() {
    let mut layer = FloatingLayer::new(4);
    assert!(layer.front);
    layer.flip();
    assert_eq!(layer, FloatingLayer { workspace_id: 4, front: false });
}

fn entry(id: u64, entity: u64, active: bool, windows: &[u64]) -> WorkspaceEntry {
    WorkspaceEntry { strip: strip_of(id, windows), entity: Entity(entity), active }
}

#[test]
fn the_strip_of_the_space_is_shown() {
    let mut entries = vec![entry(1, 10, true, &[1]), entry(2, 20, false, &[2])];
    assert_eq!(
        workspace_change(&mut entries, 2, false, None, &screen()),
        SpaceSwitch::Switch { from: Entity(10), into: Entity(20) }
    );
    let mut entries = vec![entry(1, 10, true, &[1]), entry(2, 20, false, &[2])];
    assert_eq!(workspace_change(&mut entries, 1, false, None, &screen()), SpaceSwitch::Stay);
    let mut entries = vec![entry(1, 10, true, &[1, 5])];
    assert_eq!(
        workspace_change(&mut entries, 9, true, Some(Entity(5)), &screen()),
        SpaceSwitch::Fullscreen {
            from: Entity(10),
            origin: IVec2::new(30, 40),
            window: Entity(5),
            previous_strip: 1,
            previous_index: 1,
        }
    );
    let mut space = 3;
    assert!(workspace_change_watcher(&mut space, 4));
    assert!(!workspace_change_watcher(&mut space, 4));
}

#[test]
fn spaces_come_and_go_with_their_strips() {
    let strips = vec![(1, Entity(10)), (2, Entity(20))];
    assert_eq!(workspace_destroyed(2, &strips), Some(Entity(20)));
    assert_eq!(workspace_destroyed(3, &strips), None);
    assert!(workspace_created(1, &vec![1, 2], &screen()).is_none());
    let (created, origin) = workspace_created(3, &vec![1, 2], &screen()).unwrap();
    assert_eq!((created.id(), origin), (3, IVec2::new(30, 40)));
    let windows = vec![(7, Entity(1)), (8, Entity(2))];
    let strip = strip_of(1, &[1]);
    assert_eq!(
        windows_not_in_strip(&vec![7, 8, 9], &windows, &strip),
        (vec![Entity(2)], vec![9])
    );
    assert_eq!(window_to_reshuffle(&strip, Some(Entity(2))), Some(Entity(1)));
    assert_eq!(window_to_reshuffle(&strip_of(1, &[]), None), None);
}

#[test]
fn windows_move_to_the_strip_of_their_space() {
    let attached = |id, entity, windows| AttachedStrip {
        strip: strip_of(id, windows),
        entity: Entity(entity),
        parent: Entity(100),
    };
    let mut strips = vec![attached(1, 11, &[1, 2]), attached(2, 12, &[3])];
    receive_windows(&vec![Entity(2)], 2, Entity(100), &Vec::<NativeFullscreenMarker>::new(), &mut strips);
    assert_eq!(strips[0].strip.all_windows(), vec![Entity(1)]);
    assert_eq!(strips[1].strip.all_windows(), vec![Entity(3), Entity(2)]);
}

#[test]
fn orphans_are_adopted_merged_or_rescued() {
    let orphan = |id, entity, windows, timed_out, attached| Orphan {
        strip: strip_of(id, windows),
        entity: Entity(entity),
        timed_out,
        attached,
    };
    let orphans = vec![
        orphan(1, 11, &[], false, false),
        orphan(2, 12, &[1], false, true),
        orphan(3, 13, &[2, 3], true, false),
        orphan(4, 14, &[4], false, false),
        orphan(5, 15, &[5], false, false),
        orphan(6, 16, &[6], false, false),
    ];
    let mut strips =
        vec![AttachedStrip { strip: strip_of(6, &[9]), entity: Entity(66), parent: Entity(100) }];
    let actions = find_orphaned_workspaces(
        &orphans,
        &mut strips,
        &vec![known(1, 100)],
        &vec![scanned(1, &[5, 6])],
    );
    assert!(matches!(actions[0], OrphanAction::Despawn(Entity(11))));
    assert!(matches!(actions[1], OrphanAction::Keep(Entity(12))));
    assert!(matches!(&actions[2], OrphanAction::Rescue(w) if *w == [Entity(2), Entity(3)]));
    assert!(matches!(actions[3], OrphanAction::Wait));
    assert!(matches!(
        actions[4],
        OrphanAction::Adopt { orphan: Entity(15), display: Entity(100) }
    ));
    assert!(matches!(
        actions[5],
        OrphanAction::Merge { orphan: Entity(16), into: Entity(66) }
    ));
    let merged = strips.iter().find(|strip| strip.entity == Entity(66)).unwrap();
    assert_eq!(merged.strip.all_windows(), vec![Entity(9), Entity(6)]);
}

#[test]
fn floating_windows_come_to_their_display() {
    let window = |entity, id, floating| WindowEntry { entity: Entity(entity), id, floating };
    let windows = vec![window(1, 7, true), window(2, 8, false), window(3, 9, true)];
    assert_eq!(
        refresh_workspace_window_sizes(&vec![7, 8, 9, 10], &vec![9], &windows),
        vec![Entity(1)]
    );
}

fn framed(entity: u64, id: i32, y: i32, height: i32) -> FrameEntry {
    FrameEntry {
        entity: Entity(entity),
        id,
        position: IVec2::new(0, y),
        bounds: IVec2::new(300, height),
        stack_adjusted: false,
    }
}

#[test]
fn a_dragged_edge_is_shared_with_the_window_above() {
    let mut strip = strip_of(1, &[1, 2]);
    strip.stack(Entity(2)).unwrap();
    let mut windows = vec![framed(1, 7, 0, 400), framed(2, 8, 400, 400)];
    let event = Event::WindowResized { window_id: 8 };
    let frame = Some(IRect::new(0, 300, 300, 800));
    let update =
        window_update_frame(&event, false, &mut windows, frame, &strip, Some(Entity(2)), false);
    assert_eq!(windows[1].position, IVec2::new(0, 300));
    assert_eq!(windows[1].bounds, IVec2::new(300, 500));
    assert_eq!(windows[0].bounds, IVec2::new(300, 300));
    assert_eq!(update.adjusted, Some(Entity(1)));
    let before = windows.clone();
    let update =
        window_update_frame(&event, true, &mut windows, frame, &strip, Some(Entity(2)), false);
    assert_eq!(windows, before);
    assert_eq!(update.reshuffle, None);
}

#[test]
fn a_window_grows_only_after_it_has_moved() {
    let size = IVec2::new;
    assert!(resize_is_deferred(true, size(100, 100), size(120, 100)));
    assert!(!resize_is_deferred(true, size(100, 100), size(100, 50)));
    assert!(!resize_is_deferred(false, size(100, 100), size(120, 100)));
    let dragged = vec![
        DraggedWindow { entity: Entity(1), rested: true },
        DraggedWindow { entity: Entity(2), rested: false },
    ];
    assert!(matches!(reposition_dragged_window(true, &dragged), DragFollowUp::Forget));
    assert!(matches!(
        reposition_dragged_window(false, &dragged),
        DragFollowUp::Reshuffle(windows) if windows == [Entity(1)]
    ));
}

#[test]
fn timers_end_what_they_belong_to() {
    let timer = |entity, elapsed| TimeoutEntry { entity: Entity(entity), elapsed, limit: 100 };
    let (running, gone) = timeout_ticker(&vec![timer(1, 100), timer(2, 0), timer(3, 90)], 20);
    assert_eq!(gone, vec![Entity(1)]);
    assert_eq!(running, vec![timer(2, 20), timer(3, 100)]);
    let (running, gone) = timeout_ticker(&running, u64::MAX);
    assert_eq!(gone, vec![Entity(3)]);
    assert_eq!(running, vec![timer(2, 100)]);
    let fresh = |entity, fresh| FreshEntry { entity: Entity(entity), fresh };
    assert_eq!(fresh_marker_cleanup(&vec![fresh(1, true), fresh(2, false)]), vec![Entity(2)]);
}

#[test]
fn displays_are_rearranged_by_events() {
    let events = vec![
        Event::DisplayAdded { display_id: 1 },
        Event::SpaceChanged,
        Event::DisplayMoved { display_id: 2 },
        Event::DisplayRemoved { display_id: 3 },
    ];
    assert_eq!(
        displays_rearranged(&events),
        vec![DisplayStep::Add(1), DisplayStep::Move(2), DisplayStep::Remove(3)]
    );
}

#[test]
fn a_running_application_is_asked_only_if_it_is_observed() {
    let unobserved = add_existing_application::<u8, (), _>(false, || panic!("not observed"));
    assert!(unobserved.spawn.is_none() && unobserved.search.is_none());
    let found = add_existing_application::<u8, (), _>(true, || Ok((vec![1], vec![2])));
    assert_eq!((found.spawn, found.search), (Some(vec![1]), Some(vec![2])));
    let shown = add_existing_application::<u8, (), _>(true, || Ok((vec![], vec![])));
    assert_eq!((shown.spawn, shown.search), (Some(vec![]), None));
    let silent = add_existing_application::<u8, (), _>(true, || Err(()));
    assert!(silent.spawn.is_none() && silent.search.is_none());
}

fn settings(dim: f64, border: bool) -> OverlaySettings {
    let black = Color { red: number(0.0), green: number(0.0), blue: number(0.0) };
    OverlaySettings {
        dim_opacity: number(dim),
        dim_color: black,
        border_enabled: border,
        border_color: black,
        border_opacity: number(1.0),
        border_width: number(2.0),
        border_radius: BorderRadiusOption::Auto,
    }
}

#[test]
fn overlays_surround_the_focused_window() {
    let mut window = FocusedWindow {
        frame: IRect::new(10, 20, 310, 420),
        horizontal_padding: 4,
        vertical_padding: 5,
        managed: true,
        full_screen: false,
        rule_radii: vec![],
        detected_radius: Some(number(9.0)),
    };
    match update_overlays(false, false, &settings(0.5, true), Some(&window)) {
        OverlayAction::Update { origin, size, border, dim_opacity, .. } => {
            assert_eq!(origin, IVec2::new(14, 25));
            assert_eq!(size, IVec2::new(292, 390));
            assert_eq!(dim_opacity, number(0.5));
            assert_eq!(border.unwrap().radius, number(9.0));
        }
        action => panic!("{action:?}"),
    }
    assert_eq!(
        update_overlays(true, false, &settings(0.5, true), Some(&window)),
        OverlayAction::Hide
    );
    assert_eq!(
        update_overlays(false, false, &settings(0.0, false), Some(&window)),
        OverlayAction::Remove
    );
    window.managed = false;
    assert_eq!(
        update_overlays(false, false, &settings(0.5, true), Some(&window)),
        OverlayAction::Hide
    );
    assert_eq!(update_overlays(false, false, &settings(0.5, true), None), OverlayAction::Hide);
}

#[test]
fn setup_gives_each_strip_the_windows_of_its_space() {
    let window = |entity, minimized| SetupWindow { entity: Entity(entity), minimized };
    let mut strips = vec![WorkspaceStrip { strip: strip_of(1, &[1, 2, 9]), active: true }];
    let present = vec![Some(vec![window(2, false), window(1, true), window(3, false)])];
    assert!(finish_setup(true, false, &mut strips, &present).is_none());
    assert_eq!(strips[0].strip.len(), 3);
    let setups = finish_setup(false, false, &mut strips, &present).unwrap();
    assert_eq!(strips[0].strip.all_windows(), vec![Entity(2), Entity(3)]);
    assert_eq!(setups[0].minimized, vec![Entity(1)]);
    assert_eq!(setups[0].focus, Some(Entity(2)));
}

#[test]
fn the_start_gathers_displays_and_processes() {
    let displays = gather_displays(2, Some(8), &vec![scanned(1, &[7]), scanned(2, &[8, 9])]);
    assert_eq!(displays.len(), 2);
    assert!(!displays[0].active);
    assert_eq!(displays[0].origin, IVec2::new(30, 40));
    assert!(displays[1].active);
    assert_eq!(displays[1].strips, vec![(8, true), (9, false)]);
    let psn = |low| ProcessSerialNumber { high: 0, low };
    let launched = |low| Event::ApplicationLaunched { psn: psn(low) };
    let config = |focus_follows_mouse| {
        let options = MainOptions { focus_follows_mouse };
        let raw = RawConfig { options, bindings: vec![] };
        Event::InitialConfig(Config::new(Ok(raw), &vec![]).unwrap())
    };
    let events = vec![
        launched(1),
        config(true),
        Event::SpaceChanged,
        launched(2),
        config(false),
        Event::ProcessesLoaded,
        launched(3),
        config(true),
    ];
    let (processes, initial) = gather_initial_processes(&events);
    assert_eq!(processes, vec![psn(2), psn(1)]);
    assert!(!initial.unwrap().options().focus_follows_mouse);
    let ended = vec![Event::Exit, launched(1), config(true)];
    let (processes, initial) = gather_initial_processes(&ended);
    assert!(processes.is_empty() && initial.is_none());
    assert_eq!(add_launched_process(false, true, false), LaunchStep::Create);
    assert_eq!(add_launched_process(false, true, true), LaunchStep::Done);
    assert_eq!(add_launched_process(false, false, false), LaunchStep::Wait);
    assert_eq!(add_launched_process(true, true, false), LaunchStep::Wait);
    assert_eq!(add_launched_application(&vec![1, 2], &vec![2], false), (vec![1], true));
    assert_eq!(add_launched_application(&vec![2], &vec![2], false), (vec![], false));
    assert_eq!(add_launched_application(&vec![], &vec![2], true), (vec![], true));
}

#[test]
fn a_pass_over_launched_processes_ends_at_the_first_failure() {
    let fresh = |entity, low, ready, has_application| FreshProcess {
        entity: Entity(entity),
        psn: ProcessSerialNumber { high: 0, low },
        ready,
        has_application,
    };
    let processes = vec![
        fresh(1, 10, true, true),
        fresh(2, 10, true, false),
        fresh(3, 11, false, false),
        fresh(4, 12, true, false),
        fresh(5, 13, true, false),
        fresh(6, 14, true, true),
    ];
    let all = add_launched_processes(&processes, |_| true);
    assert_eq!(
        all,
        vec![
            Launched::Finished(Entity(1)),
            Launched::Created(Entity(4)),
            Launched::Created(Entity(5)),
            Launched::Finished(Entity(6)),
        ]
    );
    let broken = add_launched_processes(&processes, |entity| entity != Entity(4));
    assert_eq!(broken, vec![Launched::Finished(Entity(1)), Launched::Failed(Entity(4))]);
}

#[test]
fn events_are_dispatched_at_the_top() {
    assert_eq!(dispatch_toplevel_triggers(&Event::WindowCreated, true), Dispatch::AddWindow);
    assert_eq!(
        dispatch_toplevel_triggers(&Event::SpaceChanged, true),
        Dispatch::Forward { stop_polling: true }
    );
    assert_eq!(
        dispatch_toplevel_triggers(&Event::MenuClosed { window_id: 1 }, true),
        Dispatch::Drop
    );
    assert_eq!(
        dispatch_toplevel_triggers(&Event::ThemeChanged, true),
        Dispatch::Forward { stop_polling: false }
    );
    assert_eq!(next_pump_timeout(7, true), 1);
    assert_eq!(next_pump_timeout(7, false), 8);
    assert_eq!(next_pump_timeout(900, false), 501);
}

#[test]
fn missed_changes_of_displays_are_made_up_for() {
    let display = |id, active| WatchedDisplay { id, active };
    assert!(display_changes_watcher(1, &vec![display(1, true)], &vec![1]).is_empty());
    let events = display_changes_watcher(2, &vec![display(1, true), display(2, false)], &vec![2]);
    assert!(matches!(events[0], Event::DisplayChanged));
    assert!(matches!(events[1], Event::DisplayRemoved { display_id: 1 }));
    let events = display_changes_watcher(3, &vec![display(1, true)], &vec![1, 3]);
    assert!(matches!(events[..], [Event::DisplayAdded { display_id: 3 }]));
}

#[test]
fn strips_know_where_their_display_was() {
    let place = |entity, parent: Option<u64>| StripPlace {
        id: 1,
        entity: Entity(entity),
        parent: parent.map(Entity),
    };
    let left = IRect::new(0, 0, 1000, 800);
    let right = IRect::new(1000, 0, 2000, 800);
    let displays = vec![
        DisplayFrame { entity: Entity(100), bounds: left },
        DisplayFrame { entity: Entity(200), bounds: right },
    ];
    let strips = vec![
        place(11, Some(200)),
        place(12, None),
        place(13, Some(100)),
        place(14, Some(300)),
    ];
    assert_eq!(
        previous_parents(&strips, &displays),
        vec![(Entity(11), right), (Entity(13), left)]
    );
}

#[test]
fn an_animation_ends_at_its_target() {
    let target = IVec2::new(100, 50);
    let halfway = IVec2::new(50, 25);
    assert_eq!(
        animate_entities(halfway, target),
        AnimationStep { reached: halfway, done: false }
    );
    assert!(animate_entities(target, target).done);
    // A window that grows waits until it has moved, one that shrinks does not.
    assert!(animate_resize_entities(true, halfway, target, target).is_none());
    assert_eq!(
        animate_resize_entities(true, target, halfway, halfway),
        Some(AnimationStep { reached: halfway, done: true })
    );
    assert_eq!(
        animate_resize_entities(false, IVec2::new(0, 0), halfway, target),
        Some(AnimationStep { reached: halfway, done: false })
    );
}

#[test]
fn processes_are_taken_in_up_to_the_first_failure() {
    let processes = vec![
        (Entity(1), Some("one")),
        (Entity(2), Some("two")),
        (Entity(3), None),
        (Entity(4), Some("four")),
    ];
    assert_eq!(
        add_existing_process(processes),
        vec![(Entity(1), "one"), (Entity(2), "two")]
    );
    assert_eq!(add_existing_process(vec![(Entity(1), Some(1))]), vec![(Entity(1), 1)]);
}

#[test]
fn strips_are_refreshed_on_the_displays_that_they_are_on() {
    let placed = |entity, windows: &[u64], display| PlacedStrip {
        entity: Entity(entity),
        strip: strip_of(entity, windows),
        origins: StripOrigins {
            position: IVec2::new(-100, 0),
            previous_origin: None,
            target: None,
        },
        display,
    };
    let display = IRect::new(1000, 0, 2000, 800);
    let strips = vec![
        placed(11, &[1], Some(display)),
        placed(12, &[2], Some(display)),
        placed(13, &[3], None),
    ];
    let parents = vec![(Entity(11), IRect::new(0, 0, 1000, 800))];
    let refreshed = refresh_display_layout(&strips, &parents, Some(Entity(1)), 5);
    let moved = refreshed[0].as_ref().expect("on a display");
    assert_eq!(moved.origins.position, IVec2::new(900, 0));
    assert_eq!(moved.ensure_visible, Some(Entity(1)));
    assert!(!moved.forget_offset);
    let rescued = refreshed[1].as_ref().expect("on a display");
    assert_eq!(rescued.origins.position, IVec2::new(1000, 0));
    assert!(rescued.forget_offset && rescued.ensure_visible.is_none());
    assert!(refreshed[2].is_none());
}

#[test]
fn a_strip_that_is_shown_receives_its_windows() {
    let attached = |id, entity, windows: &[u64]| AttachedStrip {
        strip: strip_of(id, windows),
        entity: Entity(entity),
        parent: Entity(100),
    };
    let space = || ShownSpace {
        ids: Some(vec![1, 2, 5, 8, 9]),
        managed: vec![(1, Entity(1)), (2, Entity(2)), (5, Entity(5))],
        known: vec![1, 2, 5, 8],
        listed: vec![3, 9, 8],
        focused: Some(Entity(2)),
        display: Entity(100),
        fullscreened: vec![],
    };
    // Window 5 moved here from the other strip; 8 is known but not laid out.
    let mut strips = vec![attached(7, 11, &[1, 2]), attached(8, 12, &[5, 6])];
    let activation = active_workspace(Entity(11), &space(), &mut strips).unwrap();
    assert_eq!(activation.retry, vec![9]);
    assert_eq!(activation.reshuffle, vec![Entity(5)]);
    assert_eq!(strips[0].strip.all_windows(), vec![Entity(1), Entity(2), Entity(5)]);
    assert_eq!(strips[1].strip.all_windows(), vec![Entity(6)]);
    // With nothing new it is laid out around the focused window, or the first.
    let again = active_workspace(Entity(11), &space(), &mut strips).unwrap();
    assert_eq!(again.reshuffle, vec![Entity(2)]);
    let elsewhere = ShownSpace { focused: Some(Entity(6)), ..space() };
    let first = active_workspace(Entity(11), &elsewhere, &mut strips).unwrap();
    assert_eq!(first.reshuffle, vec![Entity(1)]);
    // Nothing happens where the system says nothing, or the strip is on no display.
    let silent = ShownSpace { ids: None, ..space() };
    assert!(active_workspace(Entity(11), &silent, &mut strips).is_none());
    assert!(active_workspace(Entity(13), &space(), &mut strips).is_none());
}
