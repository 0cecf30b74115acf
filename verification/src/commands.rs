//! The commands that a user gives, and what they do to a strip.
use vstd::prelude::*;

use crate::events::Event;
use crate::geometry::Entity;
use crate::layout;
use crate::layout::{Column, ColumnModel, LayoutStrip, WorkspaceId};
use crate::number::Number;
use crate::reconcile::{contains, MarkedDisplay};
use crate::search;

verus! {

/// A direction on a strip.
#[derive(Clone, Copy, Debug, PartialEq, Eq, Structural)]
pub enum Direction {
    North,
    South,
    West,
    East,
    First,
    Last,
}

/// What can be done with the focused window.
#[derive(Clone, Copy, Debug, PartialEq, Eq, Structural)]
pub enum Operation {
    /// Focuses the window in the given direction.
    Focus(Direction),
    /// Swaps the window with the one in the given direction.
    Swap(Direction),
    /// Centers the window on the display.
    Center,
    /// Gives the window the next of the preset widths.
    Resize,
    /// Toggles the window between full and its former width.
    FullWidth,
    /// Moves the window to the next display.
    ToNextDisplay,
    /// Gives the windows of the stack equal heights.
    Equalize,
    /// Toggles whether the window is managed.
    Manage,
    /// Stacks (`true`) or unstacks (`false`) the window.
    Stack(bool),
}

/// What can be done with the mouse.
#[derive(Clone, Copy, Debug, PartialEq, Eq, Structural)]
pub enum MouseMove {
    /// Moves the mouse pointer to the next display.
    ToNextDisplay,
}

/// A command to the window manager.
#[derive(Clone, Copy, Debug, PartialEq, Eq, Structural)]
pub enum Command {
    /// Something to do with the focused window.
    Window(Operation),
    /// Something to do with the mouse.
    Mouse(MouseMove),
    Quit,
    PrintState,
}

// ---------------------------------------------------------------------------
// Which commands were given
// ---------------------------------------------------------------------------
/// The command that an event brings, if it brings one.
pub open spec fn brought() -> spec_fn(Event) -> Option<Command> {
    |event: Event|
        match event {
            Event::Command { command } => Some(command),
            _ => None,
        }
}

/// The commands that some events bring, in order.
pub fn given_commands(events: &Vec<Event>) -> (commands: Vec<Command>)
    ensures
        commands@ == events@.filter_map(brought()),
{
    let ghost f = brought();
    let mut commands: Vec<Command> = Vec::new();
    let mut i: usize = 0;
    while i < events.len()
        invariant
            i <= events.len(),
            f == brought(),
            commands@ == events@.take(i as int).filter_map(f),
        decreases events.len() - i,
    {
        proof {
            events@.lemma_filter_map_take_succ(f, i as int);
        }
        if let Event::Command { command } = &events[i] {
            commands.push(*command);
        }
        i = i + 1;
    }
    assert(events@.take(i as int) =~= events@);
    commands
}

/// The window operation in a command, if it is one that passes.
pub open spec fn passing(passes: spec_fn(Operation) -> bool) -> spec_fn(Command) -> Option<
    Operation,
> {
    |command: Command|
        match command {
            Command::Window(op) => if passes(op) {
                Some(op)
            } else {
                None
            },
            _ => None,
        }
}

/// The operations that a test answers with yes.
pub open spec fn answered<F: Fn(&Operation) -> bool>(test: F) -> spec_fn(Operation) -> bool {
    |op: Operation| call_ensures(test, (&op,), true)
}

/// The window operations among the commands that pass the test, in order.
pub fn filter_window_operations<F: Fn(&Operation) -> bool>(
    commands: &Vec<Command>,
    test: &F,
) -> (operations: Vec<Operation>)
    requires
        forall|op: &Operation| #[trigger] call_requires(*test, (op,)),
        forall|op: &Operation|
            !(#[trigger] call_ensures(*test, (op,), true) && call_ensures(*test, (op,), false)),
    ensures
        operations@ == commands@.filter_map(passing(answered(*test))),
{
    let ghost f = passing(answered(*test));
    let mut operations: Vec<Operation> = Vec::new();
    let mut i: usize = 0;
    assert(commands@.take(0).filter_map(f) =~= Seq::empty());
    while i < commands.len()
        invariant
            i <= commands.len(),
            forall|op: &Operation| #[trigger] call_requires(*test, (op,)),
            forall|op: &Operation|
                !(#[trigger] call_ensures(*test, (op,), true) && call_ensures(*test, (op,), false)),
            f == passing(answered(*test)),
            operations@ == commands@.take(i as int).filter_map(f),
        decreases commands.len() - i,
    {
        proof {
            commands@.lemma_filter_map_take_succ(f, i as int);
        }
        if let Command::Window(op) = commands[i] {
            let passes = test(&op);
            if passes {
                assert(call_ensures(*test, (&op,), true));
                operations.push(op);
            } else {
                assert(call_ensures(*test, (&op,), false));
                assert(!call_ensures(*test, (&op,), true));
            }
        }
        assert(operations@ =~= commands@.take(i + 1).filter_map(f));
        i = i + 1;
    }
    assert(commands@.take(i as int) =~= commands@);
    operations
}

/// The commands ask to quit.
pub open spec fn asks_to_quit(given: Seq<Command>) -> bool {
    given.contains(Command::Quit)
}

/// Whether the commands ask to quit.
pub fn command_quit_handler(commands: &Vec<Command>) -> (quit: bool)
    ensures
        quit <==> asks_to_quit(commands@),
{
    let mut i: usize = 0;
    while i < commands.len()
        invariant
            i <= commands.len(),
            forall|j: int| 0 <= j < i ==> #[trigger] commands@[j] != Command::Quit,
        decreases commands.len() - i,
    {
        if commands[i] == Command::Quit {
            return true;
        }
        i = i + 1;
    }
    false
}

// ---------------------------------------------------------------------------
// Moving the focus
// ---------------------------------------------------------------------------
/// The window in a direction from another one on its strip. Up and down stay in
/// the column; a single window is its own neighbour there.
pub open spec fn in_direction(
    columns: Seq<ColumnModel>,
    direction: Direction,
    entity: Entity,
) -> Option<Entity> {
    match layout::index(columns, entity) {
        None => None,
        Some(i) => match direction {
            Direction::West => layout::beside(columns, entity, -1),
            Direction::East => layout::beside(columns, entity, 1),
            Direction::First => columns[0].top(),
            Direction::Last => columns.last().top(),
            Direction::North => match columns[i] {
                ColumnModel::Single(window) => Some(window),
                ColumnModel::Stack(_) => layout::window_above(columns, entity),
            },
            Direction::South => match columns[i] {
                ColumnModel::Single(window) => Some(window),
                ColumnModel::Stack(stack) => {
                    let place = columns[i].position_of(entity)->0;
                    if place < stack.len() - 1 {
                        Some(stack[place + 1])
                    } else {
                        None
                    }
                },
            },
        },
    }
}

/// The window in a direction from another one on its strip.
pub fn get_window_in_direction(direction: &Direction, entity: Entity, strip: &LayoutStrip) -> (window:
    Option<Entity>)
    ensures
        window == in_direction(strip@, *direction, entity),
{
    let i: usize = match strip.index_of(entity) {
        Ok(i) => i,
        Err(_) => return None,
    };
    match direction {
        Direction::West => strip.left_neighbour(entity),
        Direction::East => strip.right_neighbour(entity),
        Direction::First => match strip.first() {
            Ok(column) => column.top(),
            Err(_) => None,
        },
        Direction::Last => match strip.last() {
            Ok(column) => column.top(),
            Err(_) => None,
        },
        Direction::North => match strip.get(i) {
            Ok(Column::Single(window)) => Some(window),
            Ok(Column::Stack(_)) => strip.above(entity),
            Err(_) => None,
        },
        Direction::South => match strip.get(i) {
            Ok(column) => {
                let place = column.position_of(entity);
                proof {
                    search::lemma_first_index_meaning(strip@, layout::holder(entity));
                    search::lemma_first_index_meaning(column@.windows(), layout::is(entity));
                }
                match (column, place) {
                    (Column::Single(window), _) => Some(window),
                    (Column::Stack(stack), Some(place)) => if place < stack.len() - 1 {
                        Some(stack[place + 1])
                    } else {
                        None
                    },
                    _ => None,
                }
            },
            Err(_) => None,
        },
    }
}

/// A command to move the focus.
pub open spec fn moves_focus() -> spec_fn(Command) -> bool {
    |command: Command| command is Window && command->Window_0 is Focus
}

/// The direction of the first command to move the focus, if there is one.
pub open spec fn focus_direction(commands: Seq<Command>) -> Option<Direction> {
    match search::first_index(commands, moves_focus()) {
        Some(i) => Some(commands[i]->Window_0->Focus_0),
        None => None,
    }
}

/// The window that the commands move the focus to: the one in the direction of the
/// first command to move it. The others wait for the focus to have moved.
pub fn command_move_focus(commands: &Vec<Command>, focused: Entity, strip: &LayoutStrip) -> (window:
    Option<Entity>)
    ensures
        window == match focus_direction(commands@) {
            Some(direction) => in_direction(strip@, direction, focused),
            None => None,
        },
{
    let ghost p = moves_focus();
    let mut i: usize = 0;
    while i < commands.len()
        invariant
            i <= commands.len(),
            p == moves_focus(),
            forall|j: int| 0 <= j < i ==> !p(#[trigger] commands@[j]),
        decreases commands.len() - i,
    {
        if let Command::Window(Operation::Focus(direction)) = commands[i] {
            proof {
                assert(p(commands@[i as int]));
                search::lemma_first_index(commands@, p, i as int);
            }
            return get_window_in_direction(&direction, focused, strip);
        }
        i = i + 1;
    }
    proof {
        search::lemma_no_first_index(commands@, p);
    }
    None
}

/// Going east and back west returns to the column one came from, and to the
/// same window where that is at least as high in its column.
pub proof fn law_east_and_west_are_inverse(columns: Seq<ColumnModel>, entity: Entity)
    requires
        in_direction(columns, Direction::East, entity) is Some,
        layout::index(
            columns,
            in_direction(columns, Direction::East, entity)->0,
        ) == Some(layout::index(columns, entity)->0 + 1),
        ({
            let i = layout::index(columns, entity)->0;
            columns[i].position_of(entity)->0 < columns[i + 1].windows().len()
        }),
        ({
            let i = layout::index(columns, entity)->0;
            columns[i + 1].windows().no_duplicates()
        }),
    ensures
        in_direction(
            columns,
            Direction::West,
            in_direction(columns, Direction::East, entity)->0,
        ) == Some(entity),
{
    let i = layout::index(columns, entity)->0;
    search::lemma_first_index_meaning(columns, layout::holder(entity));
    let here = columns[i].windows();
    let there = columns[i + 1].windows();
    assert(columns[i].holds(entity));
    let k = choose|k: int| 0 <= k < here.len() && here[k] == entity;
    search::lemma_some_first_index(here, layout::is(entity), k);
    let place = columns[i].position_of(entity)->0;
    let other = in_direction(columns, Direction::East, entity)->0;
    assert(other == there[place]);
    assert(search::is_first(there, layout::is(other), place));
    search::lemma_first_index(there, layout::is(other), place);
}

// ---------------------------------------------------------------------------
// Moving a window along the strip
// ---------------------------------------------------------------------------
/// Where a window that is moved along the strip appears.
#[derive(Clone, Copy, Debug, PartialEq, Eq, Structural)]
pub enum SwapOrigin {
    /// At the left edge of the display.
    FarLeft,
    /// At the right edge of the display.
    FarRight,
    /// Where this window is.
    At(Entity),
}

/// The strip with the column at `from` moved to index `to`; the others keep
/// their order.
pub open spec fn column_moved(columns: Seq<ColumnModel>, from: int, to: int) -> Seq<ColumnModel> {
    columns.remove(from).insert(to, columns[from])
}

/// Where a window appears that moves to this index.
pub open spec fn swap_origin(columns: Seq<ColumnModel>, to: int, known: Seq<Entity>) -> Option<
    SwapOrigin,
> {
    if to == 0 {
        Some(SwapOrigin::FarLeft)
    } else if to == columns.len() - 1 {
        Some(SwapOrigin::FarRight)
    } else {
        match columns[to].top() {
            Some(top) => if known.contains(top) {
                Some(SwapOrigin::At(top))
            } else {
                None
            },
            None => None,
        }
    }
}

/// What swapping a window in a direction does: where the window appears, and
/// the strip with its column moved. Nothing happens where there is no window in
/// that direction, or one that is needed is not known.
pub open spec fn swapped_in_direction(
    columns: Seq<ColumnModel>,
    direction: Direction,
    current: Entity,
    known: Seq<Entity>,
) -> Option<(SwapOrigin, Seq<ColumnModel>)> {
    match in_direction(columns, direction, current) {
        Some(other) => match (layout::index(columns, other), known.contains(current)) {
            (Some(to), true) => match swap_origin(columns, to, known) {
                Some(origin) => Some(
                    (origin, column_moved(columns, layout::index(columns, current)->0, to)),
                ),
                None => None,
            },
            _ => None,
        },
        None => None,
    }
}

/// Moves the focused window along the strip, column by column, to where the one
/// in the given direction is.
pub fn command_swap_focus(
    direction: &Direction,
    current: Entity,
    known: &Vec<Entity>,
    strip: &mut LayoutStrip,
) -> (origin: Option<SwapOrigin>)
    ensures
        match swapped_in_direction(old(strip)@, *direction, current, known@) {
            Some((wanted, columns)) => origin == Some(wanted) && final(strip)@ == columns,
            None => origin is None && final(strip)@ == old(strip)@,
        },
        final(strip).spec_id() == old(strip).spec_id(),
{
    let ghost before = strip@;
    let from: usize = match strip.index_of(current) {
        Ok(from) => from,
        Err(_) => return None,
    };
    let other = match get_window_in_direction(direction, current, strip) {
        Some(other) => other,
        None => return None,
    };
    let to: usize = match strip.index_of(other) {
        Ok(to) => to,
        Err(_) => return None,
    };
    if !contains(known, current) {
        return None;
    }
    let origin = if to == 0 {
        SwapOrigin::FarLeft
    } else if to == strip.len() - 1 {
        SwapOrigin::FarRight
    } else {
        let top = match strip.get(to) {
            Ok(column) => column.top(),
            Err(_) => return None,
        };
        match top {
            Some(top) => if contains(known, top) {
                SwapOrigin::At(top)
            } else {
                return None;
            },
            None => return None,
        }
    };
    let mut at: usize = from;
    assert(column_moved(before, from as int, from as int) =~= before);
    if from < to {
        while at < to
            invariant
                from <= at <= to,
                to < before.len(),
                strip@ == column_moved(before, from as int, at as int),
                strip.spec_id() == old(strip).spec_id(),
            decreases to - at,
        {
            strip.swap(at, at + 1);
            assert(strip@ =~= column_moved(before, from as int, at + 1));
            at = at + 1;
        }
    } else {
        while at > to
            invariant
                to <= at <= from,
                from < before.len(),
                strip@ == column_moved(before, from as int, at as int),
                strip.spec_id() == old(strip).spec_id(),
            decreases at,
        {
            strip.swap(at - 1, at);
            assert(strip@ =~= column_moved(before, from as int, at - 1));
            at = at - 1;
        }
    }
    Some(origin)
}

// ---------------------------------------------------------------------------
// Sizes
// ---------------------------------------------------------------------------
/// The presets above a limit.
pub open spec fn above(limit: Number) -> spec_fn(Number) -> bool {
    |ratio: Number| limit.below(ratio)
}

/// The width that comes next: the first preset above `limit`, else the first preset,
/// else one half.
pub open spec fn next_width(presets: Seq<Number>, limit: Number) -> Number {
    match search::first_where(presets, above(limit)) {
        Some(preset) => preset,
        None => if presets.len() > 0 {
            presets[0]
        } else {
            Number { bits: 0x3FE0_0000_0000_0000 }
        },
    }
}

/// The width to give a window next: the first preset above `limit`, which is a
/// little more than the window's own; else the first preset, else one half.
pub fn next_ratio(presets: &Vec<Number>, limit: Number) -> (ratio: Number)
    ensures
        ratio == next_width(presets@, limit),
{
    let mut i: usize = 0;
    while i < presets.len()
        invariant
            i <= presets.len(),
            forall|j: int| 0 <= j < i ==> !limit.below(#[trigger] presets@[j]),
        decreases presets.len() - i,
    {
        if limit.less_than(presets[i]) {
            proof {
                search::lemma_first_index(presets@, above(limit), i as int);
            }
            return presets[i];
        }
        i = i + 1;
    }
    proof {
        search::lemma_no_first_index(presets@, above(limit));
    }
    if presets.len() > 0 {
        presets[0]
    } else {
        Number::half()
    }
}

/// What toggling full width does.
#[derive(Clone, Copy, Debug, PartialEq)]
pub enum FullWidth {
    /// Give the window back the width that it had, and forget it.
    Restore(Number),
    /// Make the window as wide as the display, and remember its width.
    Fill { remember: Number },
}

/// The change of a window that has a width and remembers another, or none.
pub open spec fn toggled_width(previous: Option<Number>, current: Number) -> FullWidth {
    match previous {
        Some(previous) => FullWidth::Restore(previous),
        None => FullWidth::Fill { remember: current },
    }
}

/// Toggles full width, given the width that is remembered if there is one.
pub fn full_width_window(previous_ratio: Option<Number>, current_ratio: Number) -> (change:
    FullWidth)
    ensures
        change == toggled_width(previous_ratio, current_ratio),
{
    match previous_ratio {
        Some(previous) => FullWidth::Restore(previous),
        None => FullWidth::Fill { remember: current_ratio },
    }
}

/// The windows that share a height with this one.
pub open spec fn sharing_height(columns: Seq<ColumnModel>, entity: Entity) -> Option<
    Seq<Entity>,
> {
    match layout::index(columns, entity) {
        Some(i) => Some(
            match columns[i] {
                ColumnModel::Stack(stack) => stack,
                ColumnModel::Single(_) => Seq::<Entity>::empty(),
            },
        ),
        None => None,
    }
}

/// The windows that share the height of the display: those of the focused
/// window's stack. None for a single window; nothing for one that is not on the
/// strip.
pub fn equalize_column(entity: Entity, strip: &LayoutStrip) -> (windows: Option<Vec<Entity>>)
    ensures
        match sharing_height(strip@, entity) {
            Some(shared) => windows matches Some(stack) && stack@ == shared,
            None => windows is None,
        },
{
    let i: usize = match strip.index_of(entity) {
        Ok(i) => i,
        Err(_) => return None,
    };
    match strip.get(i) {
        Ok(Column::Stack(stack)) => Some(stack),
        Ok(Column::Single(_)) => Some(Vec::new()),
        Err(_) => None,
    }
}

// ---------------------------------------------------------------------------
// Managing and stacking
// ---------------------------------------------------------------------------
/// What toggling the managed state does: a window that floats is managed again,
/// one that is managed floats.
#[derive(Clone, Copy, Debug, PartialEq, Eq, Structural)]
pub enum ManageToggle {
    Manage(Entity),
    Float(Entity),
}

/// The change of the focused window, which is managed or not.
pub open spec fn toggled_management(focused: Option<(Entity, bool)>) -> Option<ManageToggle> {
    match focused {
        Some((entity, unmanaged)) => Some(
            if unmanaged {
                ManageToggle::Manage(entity)
            } else {
                ManageToggle::Float(entity)
            },
        ),
        None => None,
    }
}

/// Toggles whether the focused window, if there is one, is managed.
pub fn manage_window(focused: Option<(Entity, bool)>) -> (change: Option<ManageToggle>)
    ensures
        change == toggled_management(focused),
{
    match focused {
        Some((entity, unmanaged)) => if unmanaged {
            Some(ManageToggle::Manage(entity))
        } else {
            Some(ManageToggle::Float(entity))
        },
        None => None,
    }
}

/// The window to lay the others out around, and the strip, once the focused window
/// has been stacked or unstacked.
pub open spec fn restacked(
    columns: Seq<ColumnModel>,
    stack: bool,
    focused: Option<(Entity, bool)>,
) -> (Option<Entity>, Seq<ColumnModel>) {
    match focused {
        Some((entity, false)) => (
            Some(entity),
            if stack {
                layout::stacked(columns, entity)
            } else {
                layout::unstacked(columns, entity)
            },
        ),
        _ => (None, columns),
    }
}

/// Stacks or unstacks the focused window, unless it is not managed. Returns the
/// window to lay the others out around.
pub fn stack_windows_handler(
    stack: bool,
    focused: Option<(Entity, bool)>,
    strip: &mut LayoutStrip,
) -> (around: Option<Entity>)
    ensures
        final(strip).spec_id() == old(strip).spec_id(),
        (around, final(strip)@) == restacked(old(strip)@, stack, focused),
{
    match focused {
        Some((entity, unmanaged)) => {
            if unmanaged {
                return None;
            }
            let _ = if stack {
                strip.stack(entity)
            } else {
                strip.unstack(entity)
            };
            Some(entity)
        },
        None => None,
    }
}

// ---------------------------------------------------------------------------
// Displays
// ---------------------------------------------------------------------------
/// A window that goes to another display.
#[derive(Clone, Copy, Debug, PartialEq, Eq, Structural)]
pub struct DisplayMove {
    pub entity: Entity,
    pub display: u32,
    /// The window that stays behind to the right of it, around which the strip
    /// is laid out.
    pub neighbour: Option<Entity>,
}

/// The move of the focused window to another display, and the strip that it leaves.
pub open spec fn sent_off(
    columns: Seq<ColumnModel>,
    focused: Option<(Entity, bool)>,
    other_display: Option<u32>,
) -> (Option<DisplayMove>, Seq<ColumnModel>) {
    match (focused, other_display) {
        (Some((entity, false)), Some(display)) => (
            Some(DisplayMove { entity, display, neighbour: layout::beside(columns, entity, 1) }),
            layout::removed(columns, entity),
        ),
        _ => (None, columns),
    }
}

/// Takes the focused window off its strip to go to another display. Nothing
/// happens for a window that is not managed, or without another display.
pub fn to_next_display(
    focused: Option<(Entity, bool)>,
    other_display: Option<u32>,
    strip: &mut LayoutStrip,
) -> (change: Option<DisplayMove>)
    ensures
        final(strip).spec_id() == old(strip).spec_id(),
        (change, final(strip)@) == sent_off(old(strip)@, focused, other_display),
{
    match (focused, other_display) {
        (Some((entity, unmanaged)), Some(display)) => {
            if unmanaged {
                return None;
            }
            let neighbour = strip.right_neighbour(entity);
            strip.remove(entity);
            Some(DisplayMove { entity, display, neighbour })
        },
        _ => None,
    }
}

/// Displays that are not the active one.
pub open spec fn is_elsewhere() -> spec_fn(MarkedDisplay) -> bool {
    |display: MarkedDisplay| !display.active
}

/// The display that the mouse goes to, given some commands.
pub open spec fn mouse_display(given: Seq<Command>, displays: Seq<MarkedDisplay>) -> Option<
    MarkedDisplay,
> {
    if given.contains(Command::Mouse(MouseMove::ToNextDisplay)) {
        search::first_where(displays, is_elsewhere())
    } else {
        None
    }
}

/// The display that the mouse is to go to: the first that is not the active one,
/// if the commands ask for it and there is one.
pub fn next_mouse_display(commands: &Vec<Command>, displays: &Vec<MarkedDisplay>) -> (display: Option<
    MarkedDisplay,
>)
    ensures
        display == mouse_display(commands@, displays@),
{
    let ghost asked = Command::Mouse(MouseMove::ToNextDisplay);
    let mut i: usize = 0;
    while i < commands.len() && commands[i] != Command::Mouse(MouseMove::ToNextDisplay)
        invariant
            i <= commands.len(),
            asked == Command::Mouse(MouseMove::ToNextDisplay),
            forall|j: int| 0 <= j < i ==> #[trigger] commands@[j] != asked,
        decreases commands.len() - i,
    {
        i = i + 1;
    }
    if i == commands.len() {
        return None;
    }
    assert(commands@[i as int] == asked);
    let ghost p = is_elsewhere();
    let mut k: usize = 0;
    while k < displays.len()
        invariant
            k <= displays.len(),
            p == is_elsewhere(),
            commands@.contains(asked),
            asked == Command::Mouse(MouseMove::ToNextDisplay),
            forall|j: int| 0 <= j < k ==> !p(#[trigger] displays@[j]),
        decreases displays.len() - k,
    {
        if !displays[k].active {
            proof {
                search::lemma_first_index(displays@, p, k as int);
            }
            return Some(displays[k]);
        }
        k = k + 1;
    }
    proof {
        search::lemma_no_first_index(displays@, p);
    }
    None
}

/// The window that shows most of itself among those that show this wide. The first
/// of several stays, and so does one that is compared with what is no number.
pub open spec fn widest(windows: Seq<(Entity, Number)>) -> Option<(Entity, Number)>
    decreases windows.len(),
{
    if windows.len() == 0 {
        None
    } else {
        match widest(windows.drop_last()) {
            Some(best) => Some(
                if best.1.below(windows.last().1) {
                    windows.last()
                } else {
                    best
                },
            ),
            None => Some(windows.last()),
        }
    }
}

/// Where widths are numbers, no window shows more of itself than the widest.
pub proof fn law_widest_shows_most(windows: Seq<(Entity, Number)>, i: int)
    requires
        0 <= i < windows.len(),
        forall|j: int| 0 <= j < windows.len() ==> !(#[trigger] windows[j]).1.is_nan(),
    ensures
        widest(windows) is Some,
        windows.contains(widest(windows)->0),
        windows[i].1.at_most((widest(windows)->0).1),
    decreases windows.len(),
{
    let rest = windows.drop_last();
    let last = windows.last();
    assert(windows[windows.len() - 1] == last);
    if rest.len() > 0 {
        assert forall|j: int| 0 <= j < rest.len() implies !(#[trigger] rest[j]).1.is_nan() by {
            assert(rest[j] == windows[j]);
        }
        if i < rest.len() {
            law_widest_shows_most(rest, i);
            assert(rest[i] == windows[i]);
        } else {
            law_widest_shows_most(rest, 0);
        }
        let best = widest(rest)->0;
        let at = choose|k: int| 0 <= k < rest.len() && rest[k] == best;
        assert(windows[at] == best);
    }
}

/// How wide a window shows, beside it, if that is known.
pub open spec fn shown_width(widths: Seq<(Entity, Number)>) -> spec_fn(Entity) -> Option<
    (Entity, Number),
> {
    |entity: Entity| search::first_where(widths, is_width_of(entity))
}

/// The entries for a window.
pub open spec fn is_width_of(entity: Entity) -> spec_fn((Entity, Number)) -> bool {
    |entry: (Entity, Number)| entry.0 == entity
}

fn find_width(widths: &Vec<(Entity, Number)>, entity: Entity) -> (width: Option<(Entity, Number)>)
    ensures
        width == search::first_where(widths@, is_width_of(entity)),
{
    let ghost p = is_width_of(entity);
    let mut i: usize = 0;
    while i < widths.len()
        invariant
            i <= widths.len(),
            p == is_width_of(entity),
            forall|j: int| 0 <= j < i ==> !p(#[trigger] widths@[j]),
        decreases widths.len() - i,
    {
        if widths[i].0 == entity {
            proof {
                search::lemma_first_index(widths@, p, i as int);
            }
            return Some(widths[i]);
        }
        i = i + 1;
    }
    proof {
        search::lemma_no_first_index(widths@, p);
    }
    None
}

/// The strips of a space.
pub open spec fn is_of_space(space: WorkspaceId) -> spec_fn(LayoutStrip) -> bool {
    |strip: LayoutStrip| strip.spec_id() == space
}

/// The window that shows most of itself on the strip of a space.
pub open spec fn mouse_window(
    space: WorkspaceId,
    strips: Seq<LayoutStrip>,
    widths: Seq<(Entity, Number)>,
) -> Option<(Entity, Number)> {
    match search::first_where(strips, is_of_space(space)) {
        Some(strip) => widest(layout::all_windows(strip@).filter_map(shown_width(widths))),
        None => None,
    }
}

/// The window on another display that the mouse goes to: of those on the strip of
/// the space that is shown there, the one that shows most of itself. `widths`
/// tells how wide windows show.
pub fn mouse_to_next_display(
    space: WorkspaceId,
    strips: &Vec<LayoutStrip>,
    widths: &Vec<(Entity, Number)>,
) -> (window: Option<(Entity, Number)>)
    ensures
        window == mouse_window(space, strips@, widths@),
{
    let ghost p = is_of_space(space);
    let mut k: usize = 0;
    while k < strips.len() && strips[k].id() != space
        invariant
            k <= strips.len(),
            p == is_of_space(space),
            forall|j: int| 0 <= j < k ==> !p(#[trigger] strips@[j]),
        decreases strips.len() - k,
    {
        k = k + 1;
    }
    if k == strips.len() {
        proof {
            search::lemma_no_first_index(strips@, p);
        }
        return None;
    }
    proof {
        search::lemma_first_index(strips@, p, k as int);
    }
    let windows = strips[k].all_windows();
    let ghost f = shown_width(widths@);
    let mut best: Option<(Entity, Number)> = None;
    let mut i: usize = 0;
    assert(windows@.take(0).filter_map(f) =~= Seq::empty());
    while i < windows.len()
        invariant
            i <= windows.len(),
            f == shown_width(widths@),
            best == widest(windows@.take(i as int).filter_map(f)),
        decreases windows.len() - i,
    {
        let ghost before = windows@.take(i as int).filter_map(f);
        proof {
            windows@.lemma_filter_map_take_succ(f, i as int);
        }
        if let Some(next) = find_width(widths, windows[i]) {
            proof {
                let after = windows@.take(i + 1).filter_map(f);
                assert(after =~= before.push(next));
                assert(after.drop_last() =~= before);
            }
            match best {
                Some(known) => {
                    if known.1.less_than(next.1) {
                        best = Some(next);
                    }
                },
                None => {
                    best = Some(next);
                },
            }
        } else {
            assert(windows@.take(i + 1).filter_map(f) =~= before);
        }
        i = i + 1;
    }
    assert(windows@.take(i as int) =~= windows@);
    best
}

// ---------------------------------------------------------------------------
// A report of the windows
// ---------------------------------------------------------------------------
/// A display, for the report.
#[derive(Clone, Copy, Debug, PartialEq, Eq, Structural)]
pub struct ReportedDisplay {
    pub id: u32,
    pub entity: Entity,
    pub active: bool,
}

/// A strip and the display that it is on, for the report.
#[derive(Debug)]
pub struct ReportedStrip {
    pub parent: Entity,
    pub strip: LayoutStrip,
}

/// What is reported of a strip: the display that it is on, the space that it
/// belongs to, and its windows.
#[derive(Debug)]
pub struct StripReport {
    pub display_id: u32,
    pub active: bool,
    pub workspace: WorkspaceId,
    pub windows: Vec<Entity>,
}

/// What a report of a strip says.
pub ghost struct StripReportModel {
    pub display_id: u32,
    pub active: bool,
    pub workspace: WorkspaceId,
    pub windows: Seq<Entity>,
}

impl View for StripReport {
    type V = StripReportModel;

    open spec fn view(&self) -> StripReportModel {
        StripReportModel {
            display_id: self.display_id,
            active: self.active,
            workspace: self.workspace,
            windows: self.windows@,
        }
    }
}

/// A report of all windows.
#[derive(Debug)]
pub struct StateReport {
    /// The strips, display by display.
    pub strips: Vec<StripReport>,
    /// The windows that are on none of them.
    pub remaining: Vec<Entity>,
}

/// One of these windows.
pub open spec fn is_known(known: Seq<Entity>) -> spec_fn(Entity) -> bool {
    |e: Entity| known.contains(e)
}

/// What is reported of a strip, if it is on this display.
pub open spec fn strip_report(display: ReportedDisplay, known: Seq<Entity>) -> spec_fn(
    ReportedStrip,
) -> Option<StripReportModel> {
    |s: ReportedStrip|
        if s.parent == display.entity {
            Some(
                StripReportModel {
                    display_id: display.id,
                    active: display.active,
                    workspace: s.strip.spec_id(),
                    windows: layout::all_windows(s.strip@).filter(is_known(known)),
                },
            )
        } else {
            None
        }
}

/// What is reported of the strips on a display.
pub open spec fn display_report(strips: Seq<ReportedStrip>, known: Seq<Entity>) -> spec_fn(
    ReportedDisplay,
) -> Seq<StripReportModel> {
    |d: ReportedDisplay| strips.filter_map(strip_report(d, known))
}

/// What is reported of all strips, display by display.
pub open spec fn all_reports(
    displays: Seq<ReportedDisplay>,
    strips: Seq<ReportedStrip>,
    known: Seq<Entity>,
) -> Seq<StripReportModel> {
    displays.map_values(display_report(strips, known)).flatten()
}

/// What reports say.
pub open spec fn said(reports: Seq<StripReport>) -> Seq<StripReportModel> {
    reports.map_values(|r: StripReport| r@)
}

/// A window that some report tells of.
pub open spec fn is_reported(reports: Seq<StripReportModel>, entity: Entity) -> bool {
    exists|i: int| 0 <= i < reports.len() && (#[trigger] reports[i]).windows.contains(entity)
}

/// A window that no report tells of.
pub open spec fn is_left_over(reports: Seq<StripReportModel>) -> spec_fn(Entity) -> bool {
    |e: Entity| !is_reported(reports, e)
}

/// Those of some windows that are known, in order.
fn known_among(windows: &Vec<Entity>, known: &Vec<Entity>) -> (found: Vec<Entity>)
    ensures
        found@ == windows@.filter(is_known(known@)),
{
    let ghost p = is_known(known@);
    let mut found: Vec<Entity> = Vec::new();
    let mut i: usize = 0;
    assert(windows@.take(0).filter(p) =~= Seq::empty()) by {
        reveal(Seq::filter);
    }
    while i < windows.len()
        invariant
            i <= windows.len(),
            p == is_known(known@),
            found@ == windows@.take(i as int).filter(p),
        decreases windows.len() - i,
    {
        proof {
            assert(windows@.take(i + 1).drop_last() =~= windows@.take(i as int));
            reveal(Seq::filter);
        }
        if contains(known, windows[i]) {
            found.push(windows[i]);
        }
        i = i + 1;
    }
    assert(windows@.take(i as int) =~= windows@);
    found
}

/// A report of all windows: the windows of each strip, display by display, and
/// those that are on none.
pub fn print_internal_state_handler(
    displays: &Vec<ReportedDisplay>,
    strips: &Vec<ReportedStrip>,
    known: &Vec<Entity>,
) -> (report: StateReport)
    ensures
        said(report.strips@) == all_reports(displays@, strips@, known@),
        report.remaining@ == known@.filter(
            is_left_over(all_reports(displays@, strips@, known@)),
        ),
{
    let ghost per_display = display_report(strips@, known@);
    let mut reports: Vec<StripReport> = Vec::new();
    let mut d: usize = 0;
    proof {
        assert(displays@.take(0).map_values(per_display) =~= Seq::empty());
        assert(Seq::<Seq<StripReportModel>>::empty().flatten() =~= Seq::empty());
        assert(said(reports@) =~= Seq::empty());
    }
    while d < displays.len()
        invariant
            d <= displays.len(),
            per_display == display_report(strips@, known@),
            said(reports@) == displays@.take(d as int).map_values(per_display).flatten(),
        decreases displays.len() - d,
    {
        let display = displays[d];
        let ghost f = strip_report(display, known@);
        let ghost before = said(reports@);
        let mut s: usize = 0;
        assert(strips@.take(0).filter_map(f) =~= Seq::empty());
        assert(before + Seq::<StripReportModel>::empty() =~= before);
        while s < strips.len()
            invariant
                s <= strips.len(),
                f == strip_report(display, known@),
                said(reports@) == before + strips@.take(s as int).filter_map(f),
            decreases strips.len() - s,
        {
            let ghost so_far = said(reports@);
            let ghost part = strips@.take(s as int).filter_map(f);
            proof {
                strips@.lemma_filter_map_take_succ(f, s as int);
            }
            if strips[s].parent == display.entity {
                let all = strips[s].strip.all_windows();
                let windows = known_among(&all, known);
                reports.push(
                    StripReport {
                        display_id: display.id,
                        active: display.active,
                        workspace: strips[s].strip.id(),
                        windows,
                    },
                );
                assert(said(reports@) =~= so_far.push(reports@.last()@));
                assert(f(strips@[s as int]) == Some(reports@.last()@));
                assert(before + (part + seq![reports@.last()@]) =~= so_far.push(
                    reports@.last()@,
                ));
            } else {
                assert(part + Seq::<StripReportModel>::empty() =~= part);
            }
            s = s + 1;
        }
        proof {
            assert(strips@.take(s as int) =~= strips@);
            let lists = displays@.take(d as int).map_values(per_display);
            assert(displays@.take(d + 1).map_values(per_display) =~= lists.push(
                per_display(display),
            ));
            lists.lemma_flatten_push(per_display(display));
        }
        d = d + 1;
    }
    proof {
        assert(displays@.take(d as int) =~= displays@);
    }
    let ghost all = said(reports@);
    let ghost p = is_left_over(all);
    let mut remaining: Vec<Entity> = Vec::new();
    let mut i: usize = 0;
    assert(known@.take(0).filter(p) =~= Seq::empty()) by {
        reveal(Seq::filter);
    }
    while i < known.len()
        invariant
            i <= known.len(),
            all == said(reports@),
            p == is_left_over(all),
            remaining@ == known@.take(i as int).filter(p),
        decreases known.len() - i,
    {
        proof {
            assert(known@.take(i + 1).drop_last() =~= known@.take(i as int));
            reveal(Seq::filter);
        }
        if !reported(&reports, known[i]) {
            remaining.push(known[i]);
        }
        i = i + 1;
    }
    assert(known@.take(i as int) =~= known@);
    StateReport { strips: reports, remaining }
}

/// Whether some report tells of a window.
fn reported(reports: &Vec<StripReport>, entity: Entity) -> (found: bool)
    ensures
        found == is_reported(said(reports@), entity),
{
    let mut i: usize = 0;
    while i < reports.len()
        invariant
            i <= reports.len(),
            forall|j: int|
                0 <= j < i ==> !(#[trigger] said(reports@)[j]).windows.contains(entity),
        decreases reports.len() - i,
    {
        assert(said(reports@)[i as int].windows == reports@[i as int].windows@);
        if contains(&reports[i].windows, entity) {
            return true;
        }
        i = i + 1;
    }
    false
}

/// Every window is reported: on a strip, or among those that remain.
pub proof fn law_every_window_is_reported(
    displays: Seq<ReportedDisplay>,
    strips: Seq<ReportedStrip>,
    known: Seq<Entity>,
    entity: Entity,
)
    requires
        known.contains(entity),
    ensures
        is_reported(all_reports(displays, strips, known), entity) || known.filter(
            is_left_over(all_reports(displays, strips, known)),
        ).contains(entity),
{
    let p = is_left_over(all_reports(displays, strips, known));
    let k = choose|k: int| 0 <= k < known.len() && known[k] == entity;
    if p(entity) {
        known.lemma_filter_contains(p, k);
    }
}

} // verus!
