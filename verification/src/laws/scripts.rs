//! What each op of a script does to the strips, and what it asks for.
use vstd::prelude::*;

use crate::geometry::Entity;
use crate::laws::places;
use crate::laws::strips as on_strip;
use crate::layout;
use crate::layout::ColumnModel;
use crate::layout_ops;
use crate::layout_ops::{LayoutCommand, StripModel};
use crate::number::Number;
use crate::search;
use crate::windowset::{LayoutOp, WinID};

verus! {

/// The window with this id: its entry is in the table, and no earlier one has the id.
pub open spec fn is_named(windows: Seq<(WinID, Entity)>, id: WinID, entity: Entity) -> bool {
    exists|k: int|
        {
            &&& 0 <= k < windows.len()
            &&& #[trigger] windows[k] == (id, entity)
            &&& forall|j: int| 0 <= j < k ==> (#[trigger] windows[j]).0 != id
        }
}

/// The id names no window.
pub open spec fn is_gone(windows: Seq<(WinID, Entity)>, id: WinID) -> bool {
    forall|k: int| 0 <= k < windows.len() ==> (#[trigger] windows[k]).0 != id
}

/// The strip and the place on it where a window stands, and nowhere else.
pub open spec fn lives_at(
    strips: Seq<StripModel>,
    entity: Entity,
    s: int,
    i: int,
    p: int,
) -> bool {
    &&& 0 <= s < strips.len()
    &&& places::only_at(strips[s].columns, entity, i, p)
    &&& forall|t: int|
        0 <= t < strips.len() && t != s ==> places::is_absent((#[trigger] strips[t]).columns, entity)
}

/// The window is on no strip.
pub open spec fn lives_nowhere(strips: Seq<StripModel>, entity: Entity) -> bool {
    forall|t: int|
        0 <= t < strips.len() ==> places::is_absent((#[trigger] strips[t]).columns, entity)
}

/// The first strip that is shown.
pub open spec fn is_first_shown(strips: Seq<StripModel>, s: int) -> bool {
    &&& 0 <= s < strips.len()
    &&& strips[s].active
    &&& forall|t: int| 0 <= t < s ==> !(#[trigger] strips[t]).active
}

/// Strips that differ in the columns of one of them only.
pub open spec fn differ_at(before: Seq<StripModel>, after: Seq<StripModel>, s: int) -> bool {
    &&& after.len() == before.len()
    &&& 0 <= s < before.len()
    &&& after[s].id == before[s].id
    &&& after[s].active == before[s].active
    &&& forall|t: int| 0 <= t < before.len() && t != s ==> #[trigger] after[t] == before[t]
}

/// An id finds its window.
pub proof fn law_ids_find_their_windows(
    windows: Seq<(WinID, Entity)>,
    id: WinID,
    entity: Entity,
)
    ensures
        is_named(windows, id, entity) ==> layout_ops::resolve(windows, id) == Some(entity),
        is_gone(windows, id) ==> layout_ops::resolve(windows, id) is None,
{
    let f = layout_ops::names(id);
    if is_named(windows, id, entity) {
        let k = choose|k: int|
            {
                &&& 0 <= k < windows.len()
                &&& #[trigger] windows[k] == (id, entity)
                &&& forall|j: int| 0 <= j < k ==> (#[trigger] windows[j]).0 != id
            };
        search::lemma_first_index(windows, f, k);
    }
    if is_gone(windows, id) {
        search::lemma_no_first_index(windows, f);
    }
}

/// A window is found on the strip where it lives.
proof fn lemma_strip_of(strips: Seq<StripModel>, entity: Entity, s: int, i: int, p: int)
    requires
        lives_at(strips, entity, s, i, p),
    ensures
        search::first_index(strips, layout_ops::strip_with(entity)) == Some(s),
        layout::index(strips[s].columns, entity) == Some(i),
{
    let f = layout_ops::strip_with(entity);
    places::law_window_is_found_where_it_stands(strips[s].columns, entity, i, p);
    assert forall|t: int| 0 <= t < s implies !f(#[trigger] strips[t]) by {
        places::law_absent_window_is_not_found(strips[t].columns, entity);
    }
    search::lemma_first_index(strips, f, s);
}

/// Two windows of a strip are found there together.
proof fn lemma_strip_of_both(
    strips: Seq<StripModel>,
    a: Entity,
    b: Entity,
    s: int,
    i: int,
    p: int,
    k: int,
    q: int,
)
    requires
        lives_at(strips, a, s, i, p),
        lives_at(strips, b, s, k, q),
    ensures
        search::first_index(strips, layout_ops::strip_with_both(a, b)) == Some(s),
        layout::index(strips[s].columns, a) == Some(i),
        layout::index(strips[s].columns, b) == Some(k),
{
    let f = layout_ops::strip_with_both(a, b);
    lemma_strip_of(strips, a, s, i, p);
    lemma_strip_of(strips, b, s, k, q);
    assert forall|t: int| 0 <= t < s implies !f(#[trigger] strips[t]) by {
        places::law_absent_window_is_not_found(strips[t].columns, a);
    }
    search::lemma_first_index(strips, f, s);
}

/// An op on a window that is gone changes nothing and asks for nothing.
pub proof fn law_ops_on_gone_windows_do_nothing(
    windows: Seq<(WinID, Entity)>,
    strips: Seq<StripModel>,
    id: WinID,
    other: WinID,
    flag: bool,
    workspace: u32,
    ratio: Number,
)
    requires
        is_gone(windows, id),
    ensures
        ({
            let nothing = (strips, Seq::<LayoutCommand>::empty());
            &&& layout_ops::applied(LayoutOp::Focus(id), windows, strips) == nothing
            &&& layout_ops::applied(LayoutOp::Swap(id, other), windows, strips) == nothing
            &&& layout_ops::applied(LayoutOp::Swap(other, id), windows, strips) == nothing
            &&& layout_ops::applied(
                LayoutOp::MoveToWorkspace { window: id, workspace, follow: flag },
                windows,
                strips,
            ) == nothing
            &&& layout_ops::applied(
                LayoutOp::SetFloating { window: id, floating: flag },
                windows,
                strips,
            ) == nothing
            &&& layout_ops::applied(
                LayoutOp::SetManaged { window: id, managed: flag },
                windows,
                strips,
            ) == nothing
            &&& layout_ops::applied(LayoutOp::SetWidth { window: id, ratio }, windows, strips)
                == nothing
            &&& layout_ops::applied(
                LayoutOp::Stack { window: id, onto: other, tabs: flag },
                windows,
                strips,
            ) == nothing
            &&& layout_ops::applied(
                LayoutOp::Stack { window: other, onto: id, tabs: flag },
                windows,
                strips,
            ) == nothing
            &&& layout_ops::applied(LayoutOp::Unstack(id), windows, strips) == nothing
        }),
{
    law_ids_find_their_windows(windows, id, Entity(0));
}

/// Focusing a window asks for just that.
pub proof fn law_focus_asks_for_the_window(
    windows: Seq<(WinID, Entity)>,
    strips: Seq<StripModel>,
    id: WinID,
    entity: Entity,
)
    requires
        is_named(windows, id, entity),
    ensures
        layout_ops::applied(LayoutOp::Focus(id), windows, strips) == (
            strips,
            seq![LayoutCommand::FocusWindow(entity)],
        ),
{
    law_ids_find_their_windows(windows, id, entity);
}

/// Unmanaging a window asks for it to be marked as floating, and so does floating it:
/// nothing else is asked for, and every strip is as it was.
pub proof fn law_unmanaging_floats(
    windows: Seq<(WinID, Entity)>,
    strips: Seq<StripModel>,
    id: WinID,
    entity: Entity,
)
    requires
        is_named(windows, id, entity),
    ensures
        layout_ops::applied(LayoutOp::SetManaged { window: id, managed: false }, windows, strips)
            == (strips, seq![LayoutCommand::MarkFloating(entity)]),
        layout_ops::applied(LayoutOp::SetFloating { window: id, floating: true }, windows, strips)
            == (strips, seq![LayoutCommand::MarkFloating(entity)]),
{
    law_ids_find_their_windows(windows, id, entity);
}

/// Managing a window that is on a strip, or sinking it, asks for the mark to be taken
/// away and leaves every strip as it was.
pub proof fn law_managing_keeps_a_place(
    windows: Seq<(WinID, Entity)>,
    strips: Seq<StripModel>,
    id: WinID,
    entity: Entity,
    s: int,
    i: int,
    p: int,
)
    requires
        is_named(windows, id, entity),
        lives_at(strips, entity, s, i, p),
    ensures
        layout_ops::applied(LayoutOp::SetManaged { window: id, managed: true }, windows, strips)
            == (strips, seq![LayoutCommand::MarkManaged(entity)]),
        layout_ops::applied(LayoutOp::SetFloating { window: id, floating: false }, windows, strips)
            == (strips, seq![LayoutCommand::MarkManaged(entity)]),
{
    law_ids_find_their_windows(windows, id, entity);
    lemma_strip_of(strips, entity, s, i, p);
}

/// Managing a window that is on no strip, or sinking it, gives it the last column of the
/// first strip that is shown.
pub proof fn law_managing_gives_a_place(
    windows: Seq<(WinID, Entity)>,
    strips: Seq<StripModel>,
    id: WinID,
    entity: Entity,
    s: int,
    by_floating: bool,
)
    requires
        is_named(windows, id, entity),
        lives_nowhere(strips, entity),
        is_first_shown(strips, s),
    ensures
        ({
            let op = if by_floating {
                LayoutOp::SetFloating { window: id, floating: false }
            } else {
                LayoutOp::SetManaged { window: id, managed: true }
            };
            let (after, asked) = layout_ops::applied(op, windows, strips);
            &&& asked == seq![
                LayoutCommand::MarkManaged(entity),
                LayoutCommand::ReshuffleAround(entity),
            ]
            &&& differ_at(strips, after, s)
            &&& after[s].columns == strips[s].columns.push(ColumnModel::Single(entity))
            &&& places::stands_at(
                after[s].columns,
                entity,
                strips[s].columns.len() as int,
                0,
            )
        }),
{
    law_ids_find_their_windows(windows, id, entity);
    let f = layout_ops::strip_with(entity);
    assert forall|t: int| 0 <= t < strips.len() implies !f(#[trigger] strips[t]) by {
        places::law_absent_window_is_not_found(strips[t].columns, entity);
    }
    search::lemma_no_first_index(strips, f);
    search::lemma_first_index(strips, layout_ops::strip_shown(), s);
}

/// Swapping two windows of a strip exchanges their columns and leaves every other column
/// at its index.
pub proof fn law_swap_exchanges_the_columns(
    windows: Seq<(WinID, Entity)>,
    strips: Seq<StripModel>,
    a: WinID,
    first: Entity,
    b: WinID,
    second: Entity,
    s: int,
    i: int,
    p: int,
    k: int,
    q: int,
)
    requires
        is_named(windows, a, first),
        is_named(windows, b, second),
        lives_at(strips, first, s, i, p),
        lives_at(strips, second, s, k, q),
    ensures
        ({
            let (after, asked) = layout_ops::applied(LayoutOp::Swap(a, b), windows, strips);
            let (before, now) = (strips[s].columns, after[s].columns);
            &&& asked == seq![LayoutCommand::ReshuffleAround(first)]
            &&& differ_at(strips, after, s)
            &&& now.len() == before.len()
            &&& now[i] == before[k]
            &&& now[k] == before[i]
            &&& forall|j: int|
                0 <= j < before.len() && j != i && j != k ==> #[trigger] now[j] == before[j]
        }),
{
    law_ids_find_their_windows(windows, a, first);
    law_ids_find_their_windows(windows, b, second);
    lemma_strip_of_both(strips, first, second, s, i, p, k, q);
}

/// Workspaces are counted from one in a script and from zero elsewhere; there is none
/// before the first.
pub proof fn law_workspaces_count_from_one(
    windows: Seq<(WinID, Entity)>,
    strips: Seq<StripModel>,
    id: WinID,
    entity: Entity,
    index: u32,
    follow: bool,
)
    requires
        is_named(windows, id, entity),
        index < u32::MAX,
    ensures
        layout_ops::applied(LayoutOp::View { workspace: (index + 1) as u32 }, windows, strips) == (
            strips,
            seq![LayoutCommand::ShowVirtual(index)],
        ),
        layout_ops::applied(LayoutOp::View { workspace: 0 }, windows, strips) == (
            strips,
            Seq::<LayoutCommand>::empty(),
        ),
        layout_ops::applied(
            LayoutOp::MoveToWorkspace { window: id, workspace: (index + 1) as u32, follow },
            windows,
            strips,
        ) == (
            strips,
            seq![LayoutCommand::MoveToVirtual { entity, target_virtual_index: index, follow }],
        ),
        layout_ops::applied(
            LayoutOp::MoveToWorkspace { window: id, workspace: 0, follow },
            windows,
            strips,
        ) == (strips, Seq::<LayoutCommand>::empty()),
{
    law_ids_find_their_windows(windows, id, entity);
}

/// A width is asked for each window of the column, the named one first, and then that
/// the strip is laid out around it. No width is asked for that is not a positive number.
pub proof fn law_width_goes_to_the_whole_column(
    windows: Seq<(WinID, Entity)>,
    strips: Seq<StripModel>,
    id: WinID,
    entity: Entity,
    ratio: Number,
    s: int,
    i: int,
    p: int,
)
    requires
        is_named(windows, id, entity),
        lives_at(strips, entity, s, i, p),
    ensures
        ({
            let (after, asked) = layout_ops::applied(
                LayoutOp::SetWidth { window: id, ratio },
                windows,
                strips,
            );
            let column = strips[s].columns[i].windows();
            let others = column.take(p) + column.skip(p + 1);
            let positive = 0 < ratio.bits < 0x7FF0_0000_0000_0000;
            &&& after == strips
            &&& !positive ==> asked.len() == 0
            &&& positive ==> {
                &&& asked.len() == column.len() + 1
                &&& asked[0] == LayoutCommand::SetWidthRatio { entity, ratio }
                &&& forall|j: int|
                    0 <= j < others.len() ==> asked[j + 1] == (LayoutCommand::SetWidthRatio {
                        entity: #[trigger] others[j],
                        ratio,
                    })
                &&& asked[column.len() as int] == LayoutCommand::ReshuffleAround(entity)
            }
        }),
{
    law_ids_find_their_windows(windows, id, entity);
    lemma_strip_of(strips, entity, s, i, p);
    on_strip::lemma_without_in_column(strips[s].columns, entity, i, p);
    let column = strips[s].columns[i].windows();
    if strips[s].columns[i] is Single {
        assert(p == 0);
        assert(column.take(p) + column.skip(p + 1) =~= Seq::empty());
    }
}

/// Stacking a window that has a column for itself onto another one of its strip takes
/// its column away and puts it below that one's windows. It is shown as a tab where tabs
/// are asked for.
pub proof fn law_stack_puts_one_below_another(
    windows: Seq<(WinID, Entity)>,
    strips: Seq<StripModel>,
    id: WinID,
    entity: Entity,
    onto: WinID,
    below: Entity,
    tabs: bool,
    s: int,
    i: int,
    k: int,
    q: int,
)
    requires
        is_named(windows, id, entity),
        is_named(windows, onto, below),
        lives_at(strips, entity, s, i, 0),
        strips[s].columns[i] is Single,
        lives_at(strips, below, s, k, q),
        i != k,
    ensures
        ({
            let (after, asked) = layout_ops::applied(
                LayoutOp::Stack { window: id, onto, tabs },
                windows,
                strips,
            );
            let (before, now) = (strips[s].columns, after[s].columns);
            let there = if k < i {
                k
            } else {
                k - 1
            };
            &&& asked == if tabs {
                seq![LayoutCommand::ShowAsTab(entity), LayoutCommand::ReshuffleAround(entity)]
            } else {
                seq![LayoutCommand::ReshuffleAround(entity)]
            }
            &&& differ_at(strips, after, s)
            &&& now.len() == before.len() - 1
            &&& now[there] == ColumnModel::Stack(before[k].windows().push(entity))
            &&& forall|j: int|
                0 <= j < now.len() && j != there ==> #[trigger] now[j] == if j < i {
                    before[j]
                } else {
                    before[j + 1]
                }
        }),
{
    law_ids_find_their_windows(windows, id, entity);
    law_ids_find_their_windows(windows, onto, below);
    lemma_strip_of_both(strips, entity, below, s, i, 0, k, q);
    let columns = strips[s].columns;
    on_strip::law_stacked_onto_another(columns, entity, i, below, k, q);
    assert(entity != below) by {
        if entity == below {
            assert(places::stands_at(columns, entity, k, q));
        }
    }
}

/// Unstacking a window gives it a column of its own just right of its stack.
pub proof fn law_unstack_gives_a_column_back(
    windows: Seq<(WinID, Entity)>,
    strips: Seq<StripModel>,
    id: WinID,
    entity: Entity,
    s: int,
    i: int,
    p: int,
)
    requires
        is_named(windows, id, entity),
        lives_at(strips, entity, s, i, p),
        strips[s].columns[i] is Stack,
        strips[s].columns[i].windows().len() > 1,
    ensures
        ({
            let (after, asked) = layout_ops::applied(LayoutOp::Unstack(id), windows, strips);
            let (before, now) = (strips[s].columns, after[s].columns);
            &&& asked == seq![LayoutCommand::ReshuffleAround(entity)]
            &&& differ_at(strips, after, s)
            &&& now.len() == before.len() + 1
            &&& now[i + 1] == ColumnModel::Single(entity)
            &&& now[i].windows() == before[i].windows().take(p) + before[i].windows().skip(p + 1)
            &&& forall|j: int| 0 <= j < i ==> #[trigger] now[j] == before[j]
            &&& forall|j: int| i + 1 < j < now.len() ==> #[trigger] now[j] == before[j - 1]
        }),
{
    law_ids_find_their_windows(windows, id, entity);
    lemma_strip_of(strips, entity, s, i, p);
    on_strip::law_unstack_opens_a_column(strips[s].columns, entity, i, p);
}

/// Ops take effect one after the other, and what each asks for comes in their order.
pub proof fn law_ops_apply_in_order(
    ops: Seq<LayoutOp>,
    op: LayoutOp,
    windows: Seq<(WinID, Entity)>,
    strips: Seq<StripModel>,
)
    ensures
        layout_ops::applied_all(Seq::empty(), windows, strips) == (
            strips,
            Seq::<LayoutCommand>::empty(),
        ),
        ({
            let (before, asked) = layout_ops::applied_all(ops, windows, strips);
            let (after, more) = layout_ops::applied(op, windows, before);
            layout_ops::applied_all(ops.push(op), windows, strips) == (after, asked + more)
        }),
{
    assert(ops.push(op).drop_last() =~= ops);
}

/// Stacking and unstacking go by what that does to the columns of the strip, wherever on
/// it the windows stand; the other strips stay as they are.
pub proof fn law_stacking_changes_one_strip(
    windows: Seq<(WinID, Entity)>,
    strips: Seq<StripModel>,
    id: WinID,
    entity: Entity,
    onto: WinID,
    below: Entity,
    tabs: bool,
    s: int,
    i: int,
    p: int,
    k: int,
    q: int,
)
    requires
        is_named(windows, id, entity),
        is_named(windows, onto, below),
        lives_at(strips, entity, s, i, p),
        lives_at(strips, below, s, k, q),
    ensures
        ({
            let (stacked, _) = layout_ops::applied(
                LayoutOp::Stack { window: id, onto, tabs },
                windows,
                strips,
            );
            let (unstacked, _) = layout_ops::applied(LayoutOp::Unstack(id), windows, strips);
            let columns = strips[s].columns;
            &&& differ_at(strips, stacked, s)
            &&& stacked[s].columns == layout::stacked_onto(columns, entity, below)
            &&& differ_at(strips, unstacked, s)
            &&& unstacked[s].columns == layout::unstacked(columns, entity)
        }),
{
    law_ids_find_their_windows(windows, id, entity);
    law_ids_find_their_windows(windows, onto, below);
    lemma_strip_of_both(strips, entity, below, s, i, p, k, q);
    lemma_strip_of(strips, entity, s, i, p);
}

/// Windows of different strips are neither swapped nor stacked.
pub proof fn law_windows_of_different_strips_stay(
    windows: Seq<(WinID, Entity)>,
    strips: Seq<StripModel>,
    a: WinID,
    first: Entity,
    b: WinID,
    second: Entity,
    tabs: bool,
    s: int,
    i: int,
    p: int,
    t: int,
    k: int,
    q: int,
)
    requires
        is_named(windows, a, first),
        is_named(windows, b, second),
        lives_at(strips, first, s, i, p),
        lives_at(strips, second, t, k, q),
        s != t,
    ensures
        layout_ops::applied(LayoutOp::Swap(a, b), windows, strips) == (
            strips,
            Seq::<LayoutCommand>::empty(),
        ),
        layout_ops::applied(LayoutOp::Stack { window: a, onto: b, tabs }, windows, strips) == (
            strips,
            Seq::<LayoutCommand>::empty(),
        ),
{
    law_ids_find_their_windows(windows, a, first);
    law_ids_find_their_windows(windows, b, second);
    let f = layout_ops::strip_with_both(first, second);
    assert forall|u: int| 0 <= u < strips.len() implies !f(#[trigger] strips[u]) by {
        if u == s {
            places::law_absent_window_is_not_found(strips[u].columns, second);
        } else {
            places::law_absent_window_is_not_found(strips[u].columns, first);
        }
    }
    search::lemma_no_first_index(strips, f);
}

} // verus!
