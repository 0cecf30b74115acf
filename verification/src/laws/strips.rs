//! What the operations on a strip do to its columns.
use vstd::prelude::*;

use crate::geometry::Entity;
use crate::laws::places;
use crate::layout;
use crate::layout::ColumnModel;

verus! {

/// The windows of a column without the one at a place.
pub open spec fn without_place(windows: Seq<Entity>, p: int) -> Seq<Entity> {
    windows.take(p) + windows.skip(p + 1)
}

/// A column of some windows: single for one, a stack for more.
pub open spec fn is_column_of(column: ColumnModel, windows: Seq<Entity>) -> bool {
    &&& column.windows() == windows
    &&& column is Single <==> windows.len() == 1
}

/// Leaving out a window that stands at one place of a list.
proof fn lemma_without_place(windows: Seq<Entity>, entity: Entity, p: int)
    requires
        0 <= p < windows.len(),
        windows[p] == entity,
        forall|q: int| 0 <= q < windows.len() && q != p ==> #[trigger] windows[q] != entity,
    ensures
        layout::without(windows, entity) == without_place(windows, p),
{
    let (a, b) = (windows.take(p), windows.skip(p + 1));
    let f = layout::is_not(entity);
    assert(windows =~= a.push(entity) + b);
    Seq::filter_distributes_over_add(a.push(entity), b, f);
    a.lemma_filter_push(entity, f);
    assert forall|q: int| 0 <= q < a.len() implies #[trigger] a[q] != entity by {
        assert(a[q] == windows[q]);
    }
    assert forall|q: int| 0 <= q < b.len() implies #[trigger] b[q] != entity by {
        assert(b[q] == windows[q + p + 1]);
    }
    layout::laws::lemma_without_absent(a, entity);
    layout::laws::lemma_without_absent(b, entity);
}

/// The same, in the column where the window stands.
pub proof fn lemma_without_in_column(columns: Seq<ColumnModel>, entity: Entity, i: int, p: int)
    requires
        places::only_at(columns, entity, i, p),
    ensures
        layout::without(columns[i].windows(), entity) == without_place(columns[i].windows(), p),
{
    let windows = columns[i].windows();
    assert forall|q: int| 0 <= q < windows.len() && q != p implies #[trigger] windows[q]
        != entity by {
        if windows[q] == entity {
            assert(places::stands_at(columns, entity, i, q));
        }
    }
    lemma_without_place(windows, entity, p);
}

/// A window that is put at an index is a column of its own there, or at the end where
/// the index is past it: the columns before it keep their index, and those from it on
/// move by one.
pub proof fn law_insert_makes_room(columns: Seq<ColumnModel>, at: int, entity: Entity)
    requires
        0 <= at,
    ensures
        ({
            let after = layout::inserted(columns, at, entity);
            let here = if at < columns.len() {
                at
            } else {
                columns.len() as int
            };
            &&& after.len() == columns.len() + 1
            &&& after[here] == ColumnModel::Single(entity)
            &&& forall|j: int| 0 <= j < here ==> #[trigger] after[j] == columns[j]
            &&& forall|j: int| here < j < after.len() ==> #[trigger] after[j] == columns[j - 1]
        }),
{
}

/// Removing a window that has a column for itself takes the column away; those behind it
/// move up.
pub proof fn law_removing_a_single_closes_the_gap(
    columns: Seq<ColumnModel>,
    entity: Entity,
    i: int,
)
    requires
        places::only_at(columns, entity, i, 0),
        columns[i] is Single,
    ensures
        ({
            let after = layout::removed(columns, entity);
            &&& after.len() == columns.len() - 1
            &&& forall|j: int| 0 <= j < i ==> #[trigger] after[j] == columns[j]
            &&& forall|j: int| i <= j < after.len() ==> #[trigger] after[j] == columns[j + 1]
        }),
{
    places::law_window_is_found_where_it_stands(columns, entity, i, 0);
}

/// Removing a window of a stack takes just that window out of it; all columns keep their
/// index.
pub proof fn law_removing_from_a_stack_keeps_the_rest(
    columns: Seq<ColumnModel>,
    entity: Entity,
    i: int,
    p: int,
)
    requires
        places::only_at(columns, entity, i, p),
        columns[i] is Stack,
        columns[i].windows().len() > 1,
    ensures
        ({
            let after = layout::removed(columns, entity);
            &&& after.len() == columns.len()
            &&& is_column_of(after[i], without_place(columns[i].windows(), p))
            &&& forall|j: int|
                0 <= j < columns.len() && j != i ==> #[trigger] after[j] == columns[j]
        }),
{
    places::law_window_is_found_where_it_stands(columns, entity, i, p);
    lemma_without_in_column(columns, entity, i, p);
    let rest = without_place(columns[i].windows(), p);
    if rest.len() == 1 {
        assert(seq![rest[0]] =~= rest);
    }
}

/// Stacking a window that has a column for itself puts it below the windows of the column
/// to its left; the columns behind move up.
pub proof fn law_stack_joins_the_left_column(columns: Seq<ColumnModel>, entity: Entity, i: int)
    requires
        places::only_at(columns, entity, i, 0),
        columns[i] is Single,
        i > 0,
    ensures
        ({
            let after = layout::stacked(columns, entity);
            &&& after.len() == columns.len() - 1
            &&& after[i - 1] == ColumnModel::Stack(columns[i - 1].windows().push(entity))
            &&& forall|j: int| 0 <= j < i - 1 ==> #[trigger] after[j] == columns[j]
            &&& forall|j: int| i <= j < after.len() ==> #[trigger] after[j] == columns[j + 1]
        }),
{
    places::law_window_is_found_where_it_stands(columns, entity, i, 0);
}

/// The leftmost window cannot be stacked, nor one that is in a stack.
pub proof fn law_leftmost_and_stacked_stay(
    columns: Seq<ColumnModel>,
    entity: Entity,
    i: int,
    p: int,
)
    requires
        places::only_at(columns, entity, i, p),
        i == 0 || columns[i] is Stack,
    ensures
        layout::stacked(columns, entity) == columns,
{
    places::law_window_is_found_where_it_stands(columns, entity, i, p);
}

/// Unstacking a window gives it a column of its own just right of its stack, which keeps
/// the others in order; the columns behind move by one. A single window stays.
pub proof fn law_unstack_opens_a_column(
    columns: Seq<ColumnModel>,
    entity: Entity,
    i: int,
    p: int,
)
    requires
        places::only_at(columns, entity, i, p),
    ensures
        columns[i] is Single ==> layout::unstacked(columns, entity) == columns,
        columns[i] is Stack && columns[i].windows().len() > 1 ==> {
            let after = layout::unstacked(columns, entity);
            &&& after.len() == columns.len() + 1
            &&& is_column_of(after[i], without_place(columns[i].windows(), p))
            &&& after[i + 1] == ColumnModel::Single(entity)
            &&& forall|j: int| 0 <= j < i ==> #[trigger] after[j] == columns[j]
            &&& forall|j: int| i + 1 < j < after.len() ==> #[trigger] after[j] == columns[j - 1]
        },
{
    places::law_window_is_found_where_it_stands(columns, entity, i, p);
    lemma_without_in_column(columns, entity, i, p);
    let rest = without_place(columns[i].windows(), p);
    if rest.len() == 1 {
        assert(seq![rest[0]] =~= rest);
    }
}

/// Exchanging two columns puts each where the other was and moves no other.
pub proof fn law_swap_exchanges_two_columns(columns: Seq<ColumnModel>, left: int, right: int)
    requires
        0 <= left < columns.len(),
        0 <= right < columns.len(),
    ensures
        ({
            let after = layout::swapped(columns, left, right);
            &&& after.len() == columns.len()
            &&& after[left] == columns[right]
            &&& after[right] == columns[left]
            &&& forall|k: int|
                0 <= k < columns.len() && k != left && k != right ==> #[trigger] after[k]
                    == columns[k]
        }),
{
}

/// A window that is stacked onto another one of a column of its own leaves its own column
/// and is the last of the other one's, whose windows keep their order above it.
pub proof fn law_stacked_onto_another(
    columns: Seq<ColumnModel>,
    entity: Entity,
    i: int,
    onto: Entity,
    k: int,
    q: int,
)
    requires
        places::only_at(columns, entity, i, 0),
        columns[i] is Single,
        places::only_at(columns, onto, k, q),
        i != k,
    ensures
        ({
            let after = layout::stacked_onto(columns, entity, onto);
            let there = if k < i {
                k
            } else {
                k - 1
            };
            &&& after.len() == columns.len() - 1
            &&& after[there] == ColumnModel::Stack(columns[k].windows().push(entity))
            &&& forall|j: int|
                0 <= j < after.len() && j != there ==> #[trigger] after[j] == if j < i {
                    columns[j]
                } else {
                    columns[j + 1]
                }
        }),
{
    places::law_window_is_found_where_it_stands(columns, entity, i, 0);
    let rest = layout::removed(columns, entity);
    law_removing_a_single_closes_the_gap(columns, entity, i);
    let there = if k < i {
        k
    } else {
        k - 1
    };
    assert(rest[there] == columns[k]);
    assert(places::stands_at(rest, onto, there, q));
    assert forall|j: int, r: int| #[trigger] places::stands_at(rest, onto, j, r) implies j == there
        && r == q by {
        let from = if j < i {
            j
        } else {
            j + 1
        };
        assert(rest[j] == columns[from]);
        assert(places::stands_at(columns, onto, from, r));
    }
    places::law_window_is_found_where_it_stands(rest, onto, there, q);
    assert(entity != onto) by {
        if entity == onto {
            assert(places::stands_at(columns, entity, k, q));
        }
    }
}

/// The topmost windows of the columns, one for each, in order.
pub proof fn law_tops_are_the_first_of_each_column(columns: Seq<ColumnModel>)
    requires
        places::all_filled(columns),
    ensures
        layout::tops(columns).len() == columns.len(),
        forall|i: int|
            0 <= i < columns.len() ==> #[trigger] layout::tops(columns)[i]
                == columns[i].windows()[0],
    decreases columns.len(),
{
    let f = |c: ColumnModel| c.top();
    if columns.len() > 0 {
        let n = columns.len() - 1;
        let front = columns.take(n);
        assert forall|i: int| 0 <= i < front.len() implies (
        #[trigger] front[i]).windows().len() > 0 by {
            assert(front[i] == columns[i]);
        }
        law_tops_are_the_first_of_each_column(front);
        columns.lemma_filter_map_take_succ(f, n);
        assert(columns.take(n + 1) =~= columns);
        assert(columns[n].windows().len() > 0);
    } else {
        assert(columns.filter_map(f) =~= Seq::empty());
    }
}

/// A window of a stack that is stacked onto one of another column leaves its stack, which
/// keeps the others in order, and is the last of that column; all others stay.
pub proof fn law_stacked_onto_from_a_stack(
    columns: Seq<ColumnModel>,
    entity: Entity,
    i: int,
    p: int,
    onto: Entity,
    k: int,
    q: int,
)
    requires
        places::only_at(columns, entity, i, p),
        columns[i] is Stack,
        columns[i].windows().len() > 1,
        places::only_at(columns, onto, k, q),
        i != k,
    ensures
        ({
            let after = layout::stacked_onto(columns, entity, onto);
            &&& after.len() == columns.len()
            &&& after[k] == ColumnModel::Stack(columns[k].windows().push(entity))
            &&& is_column_of(after[i], without_place(columns[i].windows(), p))
            &&& forall|j: int|
                0 <= j < columns.len() && j != i && j != k ==> #[trigger] after[j] == columns[j]
        }),
{
    places::law_window_is_found_where_it_stands(columns, entity, i, p);
    law_removing_from_a_stack_keeps_the_rest(columns, entity, i, p);
    let rest = layout::removed(columns, entity);
    assert(rest[k] == columns[k]);
    assert(places::stands_at(rest, onto, k, q));
    assert forall|j: int, r: int| #[trigger] places::stands_at(rest, onto, j, r) implies j == k
        && r == q by {
        if j != i {
            assert(rest[j] == columns[j]);
            assert(places::stands_at(columns, onto, j, r));
        } else {
            let windows = columns[i].windows();
            let from = if r < p {
                r
            } else {
                r + 1
            };
            assert(rest[i].windows()[r] == windows[from]);
            assert(places::stands_at(columns, onto, i, from));
        }
    }
    places::law_window_is_found_where_it_stands(rest, onto, k, q);
    assert(entity != onto) by {
        if entity == onto {
            assert(places::stands_at(columns, entity, k, q));
        }
    }
}

} // verus!
