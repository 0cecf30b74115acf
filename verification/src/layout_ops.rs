//! Replays the ops that a script asked for against the live strips.
//!
//! The snapshot that the script transformed is up to a frame old, so a window
//! that it names may be gone. Each op is applied on its own: one that cannot be
//! resolved is skipped, and its neighbours still apply.
use vstd::prelude::*;

use crate::geometry::Entity;
use crate::layout;
use crate::layout::{Column, ColumnModel, LayoutStrip, WorkspaceId};
use crate::number::Number;
use crate::search;
use crate::windowset::{LayoutOp, WinID};

verus! {

/// One strip, and whether it is the one that is shown.
#[derive(Debug)]
pub struct WorkspaceStrip {
    pub strip: LayoutStrip,
    pub active: bool,
}

/// What a [`WorkspaceStrip`] holds.
pub struct StripModel {
    pub id: WorkspaceId,
    pub columns: Seq<ColumnModel>,
    pub active: bool,
}

impl View for WorkspaceStrip {
    type V = StripModel;

    open spec fn view(&self) -> StripModel {
        StripModel { id: self.strip.spec_id(), columns: self.strip@, active: self.active }
    }
}

/// What the strips hold.
pub open spec fn strips_view(strips: Seq<WorkspaceStrip>) -> Seq<StripModel> {
    strips.map_values(|s: WorkspaceStrip| s@)
}

/// What is asked of the live world besides the change to a strip.
#[derive(Clone, Copy, Debug, PartialEq)]
pub enum LayoutCommand {
    /// Focus the window and raise it.
    FocusWindow(Entity),
    /// Lay the windows out again, around this one.
    ReshuffleAround(Entity),
    /// Move the window to the virtual workspace with this index.
    MoveToVirtual { entity: Entity, target_virtual_index: u32, follow: bool },
    /// Show the virtual workspace with this index.
    ShowVirtual(u32),
    /// Mark the window as floating.
    MarkFloating(Entity),
    /// Take away the mark that the window is not managed.
    MarkManaged(Entity),
    /// Show the window as a tab of its column, not as an entry of a stack.
    ShowAsTab(Entity),
    /// Give the window this width, as a fraction of its display.
    SetWidthRatio { entity: Entity, ratio: Number },
}

/// The entries of the table for a window id.
pub open spec fn names(id: WinID) -> spec_fn((WinID, Entity)) -> bool {
    |entry: (WinID, Entity)| entry.0 == id
}

/// The window with this id, if it is still there.
pub open spec fn resolve(windows: Seq<(WinID, Entity)>, id: WinID) -> Option<Entity> {
    match search::first_where(windows, names(id)) {
        Some((_, entity)) => Some(entity),
        None => None,
    }
}

/// The strips that hold a window.
pub open spec fn strip_with(entity: Entity) -> spec_fn(StripModel) -> bool {
    |s: StripModel| layout::index(s.columns, entity) is Some
}

/// The strips that hold both of two windows.
pub open spec fn strip_with_both(a: Entity, b: Entity) -> spec_fn(StripModel) -> bool {
    |s: StripModel| layout::index(s.columns, a) is Some && layout::index(s.columns, b) is Some
}

/// The strips that are shown.
pub open spec fn strip_shown() -> spec_fn(StripModel) -> bool {
    |s: StripModel| s.active
}

/// The strips with other columns in one of them.
pub open spec fn with_columns(strips: Seq<StripModel>, i: int, columns: Seq<ColumnModel>) -> Seq<
    StripModel,
> {
    strips.update(i, StripModel { columns, ..strips[i] })
}

/// A fraction that is a number, finite and above zero.
pub open spec fn is_positive(ratio: Number) -> bool {
    0 < ratio.bits < 0x7FF0_0000_0000_0000
}

/// The windows that share a column with this one in the first strip that holds
/// it, where that column is a stack.
pub open spec fn siblings(strips: Seq<StripModel>, entity: Entity) -> Seq<Entity> {
    match search::first_index(strips, strip_with(entity)) {
        Some(i) => {
            let columns = strips[i].columns;
            match columns[layout::index(columns, entity)->0] {
                ColumnModel::Stack(stack) => layout::without(stack, entity),
                ColumnModel::Single(_) => Seq::empty(),
            }
        },
        None => Seq::empty(),
    }
}

/// The strips after a window was made floating or not, and what else is asked
/// for. A window that is tiled again and on no strip joins the first one that
/// is shown.
pub open spec fn refloated(strips: Seq<StripModel>, entity: Entity, floating: bool) -> (
    Seq<StripModel>,
    Seq<LayoutCommand>,
) {
    if floating {
        (strips, seq![LayoutCommand::MarkFloating(entity)])
    } else {
        let mark = seq![LayoutCommand::MarkManaged(entity)];
        match (
            search::first_index(strips, strip_with(entity)),
            search::first_index(strips, strip_shown()),
        ) {
            (None, Some(i)) => (
                with_columns(strips, i, strips[i].columns.push(ColumnModel::Single(entity))),
                mark.push(LayoutCommand::ReshuffleAround(entity)),
            ),
            _ => (strips, mark),
        }
    }
}

/// The strips after one op, and what else is asked for. An op that names a
/// window which is gone, or cannot be carried out, changes nothing.
pub open spec fn applied(
    op: LayoutOp,
    windows: Seq<(WinID, Entity)>,
    strips: Seq<StripModel>,
) -> (Seq<StripModel>, Seq<LayoutCommand>) {
    let nothing = (strips, Seq::<LayoutCommand>::empty());
    let target = match op.spec_target() {
        Some(id) => resolve(windows, id),
        None => None,
    };
    match (op, target) {
        (LayoutOp::View { workspace }, _) => if workspace >= 1 {
            (strips, seq![LayoutCommand::ShowVirtual((workspace - 1) as u32)])
        } else {
            nothing
        },
        (_, None) => nothing,
        (LayoutOp::Focus(_), Some(entity)) => (strips, seq![LayoutCommand::FocusWindow(entity)]),
        (LayoutOp::Swap(_, other), Some(entity)) => match resolve(windows, other) {
            Some(second) => match search::first_index(strips, strip_with_both(entity, second)) {
                Some(i) => {
                    let columns = strips[i].columns;
                    (
                        with_columns(
                            strips,
                            i,
                            layout::swapped(
                                columns,
                                layout::index(columns, entity)->0,
                                layout::index(columns, second)->0,
                            ),
                        ),
                        seq![LayoutCommand::ReshuffleAround(entity)],
                    )
                },
                None => nothing,
            },
            None => nothing,
        },
        (LayoutOp::MoveToWorkspace { workspace, follow, .. }, Some(entity)) => if workspace >= 1 {
            (
                strips,
                seq![
                    LayoutCommand::MoveToVirtual {
                        entity,
                        target_virtual_index: (workspace - 1) as u32,
                        follow,
                    },
                ],
            )
        } else {
            nothing
        },
        (LayoutOp::SetFloating { floating, .. }, Some(entity)) => refloated(
            strips,
            entity,
            floating,
        ),
        (LayoutOp::SetManaged { managed, .. }, Some(entity)) => refloated(strips, entity, !managed),
        (LayoutOp::SetWidth { ratio, .. }, Some(entity)) => if is_positive(ratio) {
            (
                strips,
                (seq![entity] + siblings(strips, entity)).map_values(
                    |e: Entity| LayoutCommand::SetWidthRatio { entity: e, ratio },
                ).push(LayoutCommand::ReshuffleAround(entity)),
            )
        } else {
            nothing
        },
        (LayoutOp::Stack { onto, tabs, .. }, Some(entity)) => match resolve(windows, onto) {
            Some(second) => match search::first_index(strips, strip_with_both(entity, second)) {
                Some(i) => (
                    with_columns(strips, i, layout::stacked_onto(strips[i].columns, entity, second)),
                    if tabs && entity != second {
                        seq![
                            LayoutCommand::ShowAsTab(entity),
                            LayoutCommand::ReshuffleAround(entity),
                        ]
                    } else {
                        seq![LayoutCommand::ReshuffleAround(entity)]
                    },
                ),
                None => nothing,
            },
            None => nothing,
        },
        (LayoutOp::Unstack(_), Some(entity)) => match search::first_index(
            strips,
            strip_with(entity),
        ) {
            Some(i) => (
                with_columns(strips, i, layout::unstacked(strips[i].columns, entity)),
                seq![LayoutCommand::ReshuffleAround(entity)],
            ),
            None => nothing,
        },
    }
}

/// The strips after a list of ops in order, and what else is asked for.
pub open spec fn applied_all(
    ops: Seq<LayoutOp>,
    windows: Seq<(WinID, Entity)>,
    strips: Seq<StripModel>,
) -> (Seq<StripModel>, Seq<LayoutCommand>)
    decreases ops.len(),
{
    if ops.len() == 0 {
        (strips, Seq::empty())
    } else {
        let (before, commands) = applied_all(ops.drop_last(), windows, strips);
        let (after, more) = applied(ops.last(), windows, before);
        (after, commands + more)
    }
}

/// The window with this id, if it is still there.
fn find(windows: &Vec<(WinID, Entity)>, id: WinID) -> (found: Option<Entity>)
    ensures
        found == resolve(windows@, id),
{
    let mut i: usize = 0;
    while i < windows.len()
        invariant
            i <= windows.len(),
            forall|j: int| 0 <= j < i ==> (#[trigger] windows@[j]).0 != id,
        decreases windows.len() - i,
    {
        if windows[i].0 == id {
            proof {
                search::lemma_first_index(windows@, names(id), i as int);
            }
            return Some(windows[i].1);
        }
        i = i + 1;
    }
    proof {
        search::lemma_no_first_index(windows@, names(id));
    }
    None
}

/// The first strip that holds both of two windows.
fn strip_of_both(strips: &Vec<WorkspaceStrip>, a: Entity, b: Entity) -> (found: Option<usize>)
    ensures
        found matches Some(i) ==> i < strips.len() && search::first_index(
            strips_view(strips@),
            strip_with_both(a, b),
        ) == Some(i as int) && layout::index(strips@[i as int].strip@, a) is Some && layout::index(
            strips@[i as int].strip@,
            b,
        ) is Some,
        found is None <==> search::first_index(strips_view(strips@), strip_with_both(a, b)) is None,
{
    let ghost view = strips_view(strips@);
    let mut i: usize = 0;
    while i < strips.len()
        invariant
            i <= strips.len(),
            view == strips_view(strips@),
            forall|j: int| 0 <= j < i ==> !strip_with_both(a, b)(#[trigger] view[j]),
        decreases strips.len() - i,
    {
        assert(view[i as int] == strips@[i as int]@);
        if strips[i].strip.index_of(a).is_ok() && strips[i].strip.index_of(b).is_ok() {
            proof {
                search::lemma_first_index(view, strip_with_both(a, b), i as int);
            }
            return Some(i);
        }
        i = i + 1;
    }
    proof {
        search::lemma_no_first_index(view, strip_with_both(a, b));
    }
    None
}

/// The first strip that holds a window.
fn strip_of(strips: &Vec<WorkspaceStrip>, entity: Entity) -> (found: Option<usize>)
    ensures
        found matches Some(i) ==> i < strips.len() && search::first_index(
            strips_view(strips@),
            strip_with(entity),
        ) == Some(i as int) && layout::index(strips@[i as int].strip@, entity) is Some,
        found is None <==> search::first_index(strips_view(strips@), strip_with(entity)) is None,
{
    let ghost view = strips_view(strips@);
    let mut i: usize = 0;
    while i < strips.len()
        invariant
            i <= strips.len(),
            view == strips_view(strips@),
            forall|j: int| 0 <= j < i ==> !strip_with(entity)(#[trigger] view[j]),
        decreases strips.len() - i,
    {
        assert(view[i as int] == strips@[i as int]@);
        if strips[i].strip.index_of(entity).is_ok() {
            proof {
                search::lemma_first_index(view, strip_with(entity), i as int);
            }
            return Some(i);
        }
        i = i + 1;
    }
    proof {
        search::lemma_no_first_index(view, strip_with(entity));
    }
    None
}

/// Takes a window out of the tiling layout or puts it back.
fn set_floating(
    entity: Entity,
    floating: bool,
    strips: &mut Vec<WorkspaceStrip>,
    commands: &mut Vec<LayoutCommand>,
)
    ensures
        strips_view(final(strips)@) == refloated(strips_view(old(strips)@), entity, floating).0,
        final(commands)@ == old(commands)@ + refloated(
            strips_view(old(strips)@),
            entity,
            floating,
        ).1,
{
    if floating {
        commands.push(LayoutCommand::MarkFloating(entity));
        assert(commands@ =~= old(commands)@ + seq![LayoutCommand::MarkFloating(entity)]);
        return ;
    }
    commands.push(LayoutCommand::MarkManaged(entity));
    assert(commands@ =~= old(commands)@ + seq![LayoutCommand::MarkManaged(entity)]);
    if strip_of(strips, entity).is_some() {
        return ;
    }
    let ghost view = strips_view(strips@);
    let mut i: usize = 0;
    while i < strips.len() && !strips[i].active
        invariant
            i <= strips.len(),
            view == strips_view(strips@),
            forall|j: int| 0 <= j < i ==> !(#[trigger] view[j]).active,
        decreases strips.len() - i,
    {
        assert(view[i as int] == strips@[i as int]@);
        i = i + 1;
    }
    if i < strips.len() {
        proof {
            assert(view[i as int] == strips@[i as int]@);
            search::lemma_first_index(view, strip_shown(), i as int);
        }
        strips[i].strip.append(entity);
        commands.push(LayoutCommand::ReshuffleAround(entity));
        proof {
            assert(strips_view(strips@) =~= refloated(view, entity, floating).0);
            assert(commands@ =~= old(commands)@ + refloated(view, entity, floating).1);
        }
    } else {
        proof {
            search::lemma_no_first_index(view, strip_shown());
        }
    }
}

/// Applies one op to the strips, and appends what else is asked for.
pub fn apply(
    op: LayoutOp,
    windows: &Vec<(WinID, Entity)>,
    strips: &mut Vec<WorkspaceStrip>,
    commands: &mut Vec<LayoutCommand>,
)
    ensures
        strips_view(final(strips)@) == applied(op, windows@, strips_view(old(strips)@)).0,
        final(commands)@ == old(commands)@ + applied(op, windows@, strips_view(old(strips)@)).1,
{
    let ghost view = strips_view(strips@);
    let ghost asked = commands@;
    assert(asked + Seq::<LayoutCommand>::empty() =~= asked);
    if let LayoutOp::View { workspace } = op {
        if workspace >= 1 {
            commands.push(LayoutCommand::ShowVirtual(workspace - 1));
            assert(commands@ =~= asked + applied(op, windows@, view).1);
        }
        return ;
    }
    let entity = match op.target() {
        Some(id) => match find(windows, id) {
            Some(entity) => entity,
            None => return ,
        },
        None => return ,
    };
    match op {
        LayoutOp::Focus(_) => {
            commands.push(LayoutCommand::FocusWindow(entity));
        },
        LayoutOp::Swap(_, other) => {
            let second = match find(windows, other) {
                Some(second) => second,
                None => return ,
            };
            let i: usize = match strip_of_both(strips, entity, second) {
                Some(i) => i,
                None => return ,
            };
            let (left, right) = match (
                strips[i].strip.index_of(entity),
                strips[i].strip.index_of(second),
            ) {
                (Ok(left), Ok(right)) => (left, right),
                _ => return ,
            };
            strips[i].strip.swap(left, right);
            commands.push(LayoutCommand::ReshuffleAround(entity));
        },
        LayoutOp::MoveToWorkspace { window: _, workspace, follow } => {
            if workspace < 1 {
                return ;
            }
            commands.push(
                LayoutCommand::MoveToVirtual { entity, target_virtual_index: workspace - 1, follow },
            );
        },
        LayoutOp::View { workspace: _ } => {},
        LayoutOp::SetFloating { window: _, floating } => {
            set_floating(entity, floating, strips, commands);
            return ;
        },
        LayoutOp::SetManaged { window: _, managed } => {
            set_floating(entity, !managed, strips, commands);
            return ;
        },
        LayoutOp::SetWidth { window: _, ratio } => {
            if !(0 < ratio.bits && ratio.bits < 0x7FF0_0000_0000_0000) {
                return ;
            }
            set_width(entity, ratio, strips, commands);
            return ;
        },
        LayoutOp::Stack { window: _, onto, tabs } => {
            let second = match find(windows, onto) {
                Some(second) => second,
                None => return ,
            };
            let i: usize = match strip_of_both(strips, entity, second) {
                Some(i) => i,
                None => return ,
            };
            strips[i].strip.stack_onto(entity, second);
            if tabs && entity != second {
                commands.push(LayoutCommand::ShowAsTab(entity));
            }
            commands.push(LayoutCommand::ReshuffleAround(entity));
        },
        LayoutOp::Unstack(_) => {
            let i: usize = match strip_of(strips, entity) {
                Some(i) => i,
                None => return ,
            };
            if strips[i].strip.unstack(entity).is_err() {
                return ;
            }
            commands.push(LayoutCommand::ReshuffleAround(entity));
        },
    }
    proof {
        assert(commands@ =~= asked + applied(op, windows@, view).1);
        assert(strips_view(strips@) =~= applied(op, windows@, view).0);
    }
}

/// Asks for a width for a window and for those that share its column.
fn set_width(
    entity: Entity,
    ratio: Number,
    strips: &Vec<WorkspaceStrip>,
    commands: &mut Vec<LayoutCommand>,
)
    ensures
        final(commands)@ == old(commands)@ + (seq![entity] + siblings(
            strips_view(strips@),
            entity,
        )).map_values(|e: Entity| LayoutCommand::SetWidthRatio { entity: e, ratio }).push(
            LayoutCommand::ReshuffleAround(entity),
        ),
{
    let ghost asked = commands@;
    let ghost f = |e: Entity| LayoutCommand::SetWidthRatio { entity: e, ratio };
    let mut column_windows: Vec<Entity> = Vec::new();
    if let Some(i) = strip_of(strips, entity) {
        assert(strips_view(strips@)[i as int] == strips@[i as int]@);
        if let Ok(at) = strips[i].strip.index_of(entity) {
            if let Ok(column) = strips[i].strip.get(at) {
                match column {
                    Column::Stack(stack) => {
                        column_windows = layout::others(&stack, entity);
                    },
                    Column::Single(_) => {},
                }
            }
        }
    }
    assert(column_windows@ =~= siblings(strips_view(strips@), entity));
    commands.push(LayoutCommand::SetWidthRatio { entity, ratio });
    let mut i: usize = 0;
    assert(commands@ =~= asked + (seq![entity] + column_windows@.take(0)).map_values(f));
    while i < column_windows.len()
        invariant
            i <= column_windows.len(),
            f == (|e: Entity| LayoutCommand::SetWidthRatio { entity: e, ratio }),
            commands@ == asked + (seq![entity] + column_windows@.take(i as int)).map_values(f),
        decreases column_windows.len() - i,
    {
        commands.push(LayoutCommand::SetWidthRatio { entity: column_windows[i], ratio });
        assert(commands@ =~= asked + (seq![entity] + column_windows@.take(i + 1)).map_values(f));
        i = i + 1;
    }
    assert(column_windows@.take(i as int) =~= column_windows@);
    commands.push(LayoutCommand::ReshuffleAround(entity));
    assert(commands@ =~= asked + (seq![entity] + column_windows@).map_values(f).push(
        LayoutCommand::ReshuffleAround(entity),
    ));
}

/// Applies the ops that a script asked for, in order.
pub fn apply_layout_ops(
    ops: &Vec<LayoutOp>,
    windows: &Vec<(WinID, Entity)>,
    strips: &mut Vec<WorkspaceStrip>,
) -> (commands: Vec<LayoutCommand>)
    ensures
        (strips_view(final(strips)@), commands@) == applied_all(
            ops@,
            windows@,
            strips_view(old(strips)@),
        ),
{
    let ghost view = strips_view(strips@);
    let mut commands: Vec<LayoutCommand> = Vec::new();
    let mut i: usize = 0;
    while i < ops.len()
        invariant
            i <= ops.len(),
            (strips_view(strips@), commands@) == applied_all(ops@.take(i as int), windows@, view),
        decreases ops.len() - i,
    {
        assert(ops@.take(i + 1).drop_last() =~= ops@.take(i as int));
        apply(ops[i], windows, strips, &mut commands);
        i = i + 1;
    }
    assert(ops@.take(i as int) =~= ops@);
    commands
}

/// Whatever a script asks for, the strips stay the ones they were: as many,
/// with the same spaces, and the same ones shown.
pub proof fn law_ops_keep_the_strips(
    op: LayoutOp,
    windows: Seq<(WinID, Entity)>,
    strips: Seq<StripModel>,
)
    ensures
        ({
            let after = applied(op, windows, strips).0;
            &&& after.len() == strips.len()
            &&& forall|i: int|
                0 <= i < strips.len() ==> (#[trigger] after[i]).id == strips[i].id && after[i].active
                    == strips[i].active
        }),
{
    search::lemma_first_index_meaning(strips, strip_shown());
}

/// An op that names a window which is gone changes nothing and asks nothing.
pub proof fn law_gone_windows_are_skipped(
    op: LayoutOp,
    windows: Seq<(WinID, Entity)>,
    strips: Seq<StripModel>,
)
    requires
        op.spec_target() matches Some(id) && resolve(windows, id) is None,
    ensures
        applied(op, windows, strips) == (strips, Seq::<LayoutCommand>::empty()),
{
}

} // verus!
