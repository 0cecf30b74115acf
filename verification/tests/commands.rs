//! Commands, the replay of what scripts asked for, and floating windows.
use paneru::commands::{
    command_move_focus, command_quit_handler, command_swap_focus, equalize_column,
    filter_window_operations, full_width_window, get_window_in_direction, given_commands, manage_window,
    mouse_to_next_display, next_mouse_display, next_ratio, print_internal_state_handler, stack_windows_handler,
    to_next_display, Command, Direction, DisplayMove, FullWidth, ManageToggle, MouseMove,
    Operation, ReportedDisplay, ReportedStrip, SwapOrigin,
};
use paneru::errors::Error;
use paneru::events::Event;
use paneru::floating::{clamp_origin_to_bounds, offset_frame_within_bounds};
use paneru::geometry::{Entity, IRect, IVec2};
use paneru::layout::{Column, LayoutStrip};
use paneru::layout_ops::{apply, apply_layout_ops, LayoutCommand, WorkspaceStrip};
use paneru::number::Number;
use paneru::reconcile::MarkedDisplay;
use paneru::width_ratio::{width_ratio_for_owner, StripWidth};
use paneru::windowset::LayoutOp;

fn number(value: f64) -> Number {
    Number { bits: value.to_bits() }
}

fn strip_of(windows: &[u64]) -> LayoutStrip {
    let mut strip = LayoutStrip::default();
    for window in windows {
        strip.append(Entity(*window));
    }
    strip
}

fn setup_layout() -> (LayoutStrip, Vec<Entity>) {
    // e0, e1 are stacked, e2 is single, e3 is single
    let entities: Vec<Entity> = (0..4).map(Entity).collect();
    let mut strip = LayoutStrip::default();
    strip.append(entities[0]); // This will become a stack
    strip.append(entities[1]);
    strip.append(entities[2]);
    strip.append(entities[3]);
    strip.stack(entities[1]).unwrap(); // Stack e1 onto e0
    (strip, entities)
}

#[test]
fn test_get_window_in_direction_simple() {
    let (strip, entities) = setup_layout();
    let e0 = entities[0];
    let e2 = entities[2];
    let e3 = entities[3];
    let east = Direction::East;
    let west = Direction::West;

    // From e2, east should be e3, west should be e0 (top of stack)
    assert_eq!(get_window_in_direction(&east, e2, &strip), Some(e3));
    assert_eq!(get_window_in_direction(&west, e2, &strip), Some(e0));

    // From e3, west is e2, east is None
    assert_eq!(get_window_in_direction(&west, e3, &strip), Some(e2));
    assert_eq!(get_window_in_direction(&east, e3, &strip), None);

    // From e0, east is e2, west is None
    assert_eq!(get_window_in_direction(&east, e0, &strip), Some(e2));
    assert_eq!(get_window_in_direction(&west, e0, &strip), None);
}

#[test]
fn test_get_window_in_direction_stacked() {
    let (strip, entities) = setup_layout();
    let e0 = entities[0];
    let e1 = entities[1];
    let north = Direction::North;
    let south = Direction::South;

    // From e0 (top of stack), south should be e1, north is None
    assert_eq!(get_window_in_direction(&south, e0, &strip), Some(e1));
    assert_eq!(get_window_in_direction(&north, e0, &strip), None);

    // From e1 (bottom of stack), north should be e0, south is None
    assert_eq!(get_window_in_direction(&north, e1, &strip), Some(e0));
    assert_eq!(get_window_in_direction(&south, e1, &strip), None);
}

#[test]
fn the_ends_of_the_strip_are_directions_too() {
    let (strip, entities) = setup_layout();
    assert_eq!(get_window_in_direction(&Direction::First, entities[3], &strip), Some(entities[0]));
    assert_eq!(get_window_in_direction(&Direction::Last, entities[0], &strip), Some(entities[3]));
    assert_eq!(get_window_in_direction(&Direction::First, Entity(9), &strip), None);
}

#[test]
fn commands_are_picked_by_what_they_do() {
    let commands = vec![
        Command::Window(Operation::Center),
        Command::Mouse(MouseMove::ToNextDisplay),
        Command::Window(Operation::Focus(Direction::East)),
        Command::Window(Operation::Focus(Direction::West)),
    ];
    let focus = |op: &Operation| matches!(op, Operation::Focus(_));
    assert_eq!(
        filter_window_operations(&commands, &focus),
        vec![Operation::Focus(Direction::East), Operation::Focus(Direction::West)]
    );
    assert!(!command_quit_handler(&commands));
    assert!(command_quit_handler(&vec![Command::PrintState, Command::Quit]));
    let strip = strip_of(&[1, 2, 3]);
    // Only the first command to move the focus counts.
    assert_eq!(command_move_focus(&commands, Entity(2), &strip), Some(Entity(3)));
    assert_eq!(command_move_focus(&vec![Command::Quit], Entity(2), &strip), None);
}

#[test]
fn swapping_moves_the_window_column_by_column() {
    let known = vec![Entity(1), Entity(2), Entity(3)];
    let mut strip = strip_of(&[1, 2, 3]);
    let origin = command_swap_focus(&Direction::Last, Entity(1), &known, &mut strip);
    assert_eq!(origin, Some(SwapOrigin::FarRight));
    assert_eq!(strip.all_windows(), vec![Entity(2), Entity(3), Entity(1)]);
    let origin = command_swap_focus(&Direction::First, Entity(1), &known, &mut strip);
    assert_eq!(origin, Some(SwapOrigin::FarLeft));
    assert_eq!(strip.all_windows(), vec![Entity(1), Entity(2), Entity(3)]);
    assert_eq!(command_swap_focus(&Direction::West, Entity(1), &known, &mut strip), None);
    assert_eq!(strip.all_windows(), vec![Entity(1), Entity(2), Entity(3)]);
}

#[test]
fn widths_go_through_the_presets() {
    let presets = vec![number(0.25), number(0.5), number(0.75)];
    assert_eq!(next_ratio(&presets, number(0.30)), number(0.5));
    assert_eq!(next_ratio(&presets, number(0.80)), number(0.25));
    assert_eq!(next_ratio(&Vec::new(), number(0.80)), number(0.5));
    assert_eq!(
        full_width_window(None, number(0.4)),
        FullWidth::Fill { remember: number(0.4) }
    );
    assert_eq!(
        full_width_window(Some(number(0.4)), number(1.0)),
        FullWidth::Restore(number(0.4))
    );
}

#[test]
fn only_the_windows_of_a_stack_share_its_height() {
    let (strip, entities) = setup_layout();
    assert_eq!(equalize_column(entities[1], &strip), Some(vec![entities[0], entities[1]]));
    assert_eq!(equalize_column(entities[2], &strip), Some(vec![]));
    assert_eq!(equalize_column(Entity(9), &strip), None);
}

#[test]
fn commands_leave_windows_alone_that_are_not_managed() {
    assert_eq!(manage_window(Some((Entity(1), true))), Some(ManageToggle::Manage(Entity(1))));
    assert_eq!(manage_window(Some((Entity(1), false))), Some(ManageToggle::Float(Entity(1))));
    assert_eq!(manage_window(None), None);

    let mut strip = strip_of(&[1, 2]);
    assert_eq!(stack_windows_handler(true, Some((Entity(2), true)), &mut strip), None);
    assert_eq!(strip.len(), 2);
    assert_eq!(
        stack_windows_handler(true, Some((Entity(2), false)), &mut strip),
        Some(Entity(2))
    );
    assert_eq!(strip.len(), 1);
    stack_windows_handler(false, Some((Entity(2), false)), &mut strip);
    assert_eq!(strip.len(), 2);

    assert_eq!(to_next_display(Some((Entity(1), true)), Some(7), &mut strip), None);
    assert_eq!(to_next_display(Some((Entity(1), false)), None, &mut strip), None);
    assert_eq!(
        to_next_display(Some((Entity(1), false)), Some(7), &mut strip),
        Some(DisplayMove { entity: Entity(1), display: 7, neighbour: Some(Entity(2)) })
    );
    assert_eq!(strip.all_windows(), vec![Entity(2)]);
}

#[test]
fn the_mouse_goes_to_the_window_that_shows_most() {
    let strip = |id, windows: &[u64]| {
        let mut strip = LayoutStrip::new(id);
        windows.iter().for_each(|window| strip.append(Entity(*window)));
        strip
    };
    let strips = vec![strip(7, &[9]), strip(8, &[1, 2, 3, 4])];
    let widths = vec![
        (Entity(1), number(10.0)),
        (Entity(2), number(300.0)),
        (Entity(3), number(300.0)),
        (Entity(9), number(900.0)),
    ];
    assert_eq!(
        mouse_to_next_display(8, &strips, &widths),
        Some((Entity(2), number(300.0)))
    );
    assert_eq!(mouse_to_next_display(6, &strips, &widths), None);
    assert_eq!(mouse_to_next_display(8, &strips, &vec![]), None);
}

#[test]
fn the_mouse_goes_to_a_display_that_is_not_active() {
    let display = |id, active| MarkedDisplay { id, entity: Entity(id.into()), active };
    let displays = vec![display(1, true), display(2, false), display(3, false)];
    let asked = vec![Command::Quit, Command::Mouse(MouseMove::ToNextDisplay)];
    assert_eq!(next_mouse_display(&asked, &displays), Some(display(2, false)));
    assert_eq!(next_mouse_display(&vec![Command::Quit], &displays), None);
    assert_eq!(next_mouse_display(&asked, &vec![display(1, true)]), None);
}

#[test]
fn every_window_is_reported_once() {
    let display = |id, entity, active| ReportedDisplay { id, entity: Entity(entity), active };
    let on = |parent, windows| ReportedStrip { parent: Entity(parent), strip: strip_of(windows) };
    let displays = vec![display(1, 100, true), display(2, 200, false)];
    let strips = vec![on(200, &[5]), on(100, &[1, 9, 2]), on(300, &[3])];
    let known: Vec<Entity> = [1, 2, 3, 4, 5].into_iter().map(Entity).collect();
    let report = print_internal_state_handler(&displays, &strips, &known);
    let shown: Vec<(u32, bool, Vec<Entity>)> = report
        .strips
        .iter()
        .map(|strip| (strip.display_id, strip.active, strip.windows.clone()))
        .collect();
    assert_eq!(
        shown,
        vec![(1, true, vec![Entity(1), Entity(2)]), (2, false, vec![Entity(5)])]
    );
    assert_eq!(report.remaining, vec![Entity(3), Entity(4)]);
}

fn workspaces() -> (Vec<WorkspaceStrip>, Vec<(i32, Entity)>) {
    let strips = vec![
        WorkspaceStrip { strip: strip_of(&[1, 2, 3]), active: true },
        WorkspaceStrip { strip: strip_of(&[4]), active: false },
    ];
    let windows = (1..=5).map(|id| (id as i32, Entity(id))).collect();
    (strips, windows)
}

#[test]
fn what_a_script_asked_for_is_replayed_in_order() {
    let (mut strips, windows) = workspaces();
    let commands = apply_layout_ops(
        &vec![
            LayoutOp::Focus(2),
            LayoutOp::Swap(1, 3),
            LayoutOp::Stack { window: 2, onto: 3, tabs: false },
            LayoutOp::View { workspace: 2 },
            LayoutOp::MoveToWorkspace { window: 1, workspace: 3, follow: true },
            LayoutOp::Focus(99),
            LayoutOp::View { workspace: 0 },
        ],
        &windows,
        &mut strips,
    );
    assert_eq!(
        commands,
        vec![
            LayoutCommand::FocusWindow(Entity(2)),
            LayoutCommand::ReshuffleAround(Entity(1)),
            LayoutCommand::ReshuffleAround(Entity(2)),
            LayoutCommand::ShowVirtual(1),
            LayoutCommand::MoveToVirtual {
                entity: Entity(1),
                target_virtual_index: 2,
                follow: true
            },
        ]
    );
    assert!(matches!(
        strips[0].strip.get(0).unwrap(),
        Column::Stack(stack) if stack == [Entity(3), Entity(2)]
    ));
    assert_eq!(
        strips[0].strip.all_windows(),
        vec![Entity(3), Entity(2), Entity(1)]
    );
}

#[test]
fn a_window_is_stacked_onto_the_one_that_was_named() {
    let (mut strips, windows) = workspaces();
    let mut commands = Vec::new();
    let stack = LayoutOp::Stack { window: 3, onto: 1, tabs: false };
    apply(stack, &windows, &mut strips, &mut commands);
    assert_eq!(commands, vec![LayoutCommand::ReshuffleAround(Entity(3))]);
    assert!(matches!(
        strips[0].strip.get(0).unwrap(),
        Column::Stack(stack) if stack == [Entity(1), Entity(3)]
    ));
    assert!(matches!(strips[0].strip.get(1).unwrap(), Column::Single(Entity(2))));
    assert_eq!(strips[0].strip.len(), 2);
    // As a tab it goes to the same place, and is to be shown as one.
    let tab = LayoutOp::Stack { window: 2, onto: 1, tabs: true };
    commands.clear();
    apply(tab, &windows, &mut strips, &mut commands);
    assert_eq!(
        commands,
        vec![LayoutCommand::ShowAsTab(Entity(2)), LayoutCommand::ReshuffleAround(Entity(2))]
    );
    assert_eq!(strips[0].strip.all_windows(), vec![Entity(1), Entity(3), Entity(2)]);
    assert_eq!(strips[0].strip.len(), 1);
    // Windows of two strips are not stacked.
    let across = LayoutOp::Stack { window: 4, onto: 1, tabs: false };
    commands.clear();
    apply(across, &windows, &mut strips, &mut commands);
    assert!(commands.is_empty());
    assert_eq!(strips[1].strip.all_windows(), vec![Entity(4)]);
}

#[test]
fn a_window_of_a_stack_can_be_stacked_elsewhere() {
    let mut strip = strip_of(&[1, 2, 3]);
    strip.stack_onto(Entity(1), Entity(3));
    strip.stack_onto(Entity(3), Entity(2));
    assert!(matches!(
        strip.get(0).unwrap(),
        Column::Stack(stack) if stack == [Entity(2), Entity(3)]
    ));
    assert!(matches!(strip.get(1).unwrap(), Column::Single(Entity(1))));
    strip.stack_onto(Entity(2), Entity(2));
    strip.stack_onto(Entity(9), Entity(2));
    strip.stack_onto(Entity(2), Entity(9));
    assert_eq!(strip.all_windows(), vec![Entity(2), Entity(3), Entity(1)]);
}

#[test]
fn a_window_that_is_tiled_again_joins_the_strip_that_is_shown() {
    let (mut strips, windows) = workspaces();
    let mut commands = Vec::new();
    let float = LayoutOp::SetFloating { window: 5, floating: true };
    apply(float, &windows, &mut strips, &mut commands);
    assert_eq!(commands, vec![LayoutCommand::MarkFloating(Entity(5))]);
    commands.clear();
    let sink = LayoutOp::SetFloating { window: 5, floating: false };
    apply(sink, &windows, &mut strips, &mut commands);
    assert_eq!(
        commands,
        vec![
            LayoutCommand::MarkManaged(Entity(5)),
            LayoutCommand::ReshuffleAround(Entity(5))
        ]
    );
    assert_eq!(strips[0].strip.index_of(Entity(5)).unwrap(), 3);
    assert_eq!(strips[1].strip.all_windows(), vec![Entity(4)]);
}

#[test]
fn a_width_that_is_no_width_is_not_applied() {
    let (mut strips, windows) = workspaces();
    let mut commands = Vec::new();
    for ratio in [0.0, -0.5, f64::NAN, f64::INFINITY] {
        let op = LayoutOp::SetWidth { window: 1, ratio: number(ratio) };
        apply(op, &windows, &mut strips, &mut commands);
    }
    assert_eq!(commands, vec![]);
    let op = LayoutOp::SetWidth { window: 1, ratio: number(0.5) };
    apply(op, &windows, &mut strips, &mut commands);
    assert_eq!(
        commands[0],
        LayoutCommand::SetWidthRatio { entity: Entity(1), ratio: number(0.5) }
    );
}

#[test]
fn floating_windows_stay_on_the_display() {
    let bounds = IRect::new(0, 0, 1000, 800);
    let out = IRect::new(900, -50, 1200, 150);
    let inside = clamp_origin_to_bounds(out, IVec2::new(300, 200), bounds);
    assert_eq!(inside, IRect::new(700, 0, 1000, 200));
    let aside = offset_frame_within_bounds(IRect::new(0, 0, 500, 500), bounds, 32);
    assert_ne!(aside.min, IVec2::new(0, 0));
    assert!(aside.min.x >= 0 && aside.min.y >= 0 && aside.max.x <= 1000 && aside.max.y <= 800);
    // One that fills the display has nowhere to go.
    assert_eq!(offset_frame_within_bounds(bounds, bounds, 32), bounds);
}

#[test]
fn a_width_is_measured_on_the_display_of_its_strip() {
    let strips = vec![
        StripWidth { strip: strip_of(&[1]), display_width: 2000 },
        StripWidth { strip: strip_of(&[2]), display_width: 800 },
    ];
    assert_eq!(width_ratio_for_owner(Entity(2), 400, &strips), Some((400, 800)));
    assert_eq!(width_ratio_for_owner(Entity(1), 400, &strips), Some((400, 2000)));
    assert_eq!(width_ratio_for_owner(Entity(3), 400, &strips), None);
}

#[test]
fn errors_read_as_their_kind_and_message() {
    let m = || "m".to_string();
    let texts: Vec<String> = [
        Error::invalid_window("gone"),
        Error::InvalidConfig(m()),
        Error::ConfigurationWatcher(m()),
        Error::NotFound(m()),
        Error::PermissionDenied(m()),
        Error::InvalidInput(m()),
        Error::IO(m()),
        Error::new("Other", "m"),
    ]
    .iter()
    .map(|error| error.text())
    .collect();
    assert_eq!(
        texts,
        vec![
            "Invalid window",
            "Invalid configuration: m",
            "Watching config file: m",
            "Not found: m",
            "Permission denied: m",
            "Invalid input: m",
            "IO error: m",
            "Generic error: Other: m",
        ]
    );
}

#[test]
fn commands_come_with_the_events() {
    let events = vec![
        Event::Command { command: Command::PrintState },
        Event::SpaceChanged,
        Event::Command { command: Command::Quit },
    ];
    assert_eq!(given_commands(&events), vec![Command::PrintState, Command::Quit]);
}
