//! What holds of the order of a strip's windows and of their places.
use vstd::prelude::*;

use crate::geometry::{Entity, IRect};
use crate::layout;
use crate::layout::laws;
use crate::layout::positions;
use crate::layout::ColumnModel;
use crate::search;

verus! {

/// Every stack holds at least two windows.
pub open spec fn is_tidy(columns: Seq<ColumnModel>) -> bool {
    forall|i: int|
        0 <= i < columns.len() && #[trigger] columns[i] is Stack ==> columns[i].windows().len() > 1
}

/// The windows of columns behind other columns come behind theirs.
proof fn lemma_windows_add(a: Seq<ColumnModel>, b: Seq<ColumnModel>)
    ensures
        layout::all_windows(a + b) == layout::all_windows(a) + layout::all_windows(b),
{
    let f = |c: ColumnModel| c.windows();
    assert((a + b).map_values(f) =~= a.map_values(f) + b.map_values(f));
    vstd::seq_lib::lemma_flatten_concat(a.map_values(f), b.map_values(f));
}

/// The windows of one column.
proof fn lemma_windows_of_one(column: ColumnModel)
    ensures
        layout::all_windows(seq![column]) == column.windows(),
{
    let f = |c: ColumnModel| c.windows();
    assert(seq![column].map_values(f) =~= seq![column.windows()]);
    seq![column.windows()].lemma_flatten_one_element();
}

/// How often a window is in columns behind other columns.
proof fn lemma_count_add(a: Seq<ColumnModel>, b: Seq<ColumnModel>, x: Entity)
    ensures
        laws::count(a + b, x) == laws::count(a, x) + laws::count(b, x),
    decreases b.len(),
{
    if b.len() == 0 {
        assert(a + b =~= a);
    } else {
        lemma_count_add(a, b.drop_last(), x);
        assert((a + b).drop_last() =~= a + b.drop_last());
    }
}

/// What is left of a column without a window: one column, or none.
pub open spec fn column_without(column: ColumnModel, entity: Entity) -> Seq<ColumnModel> {
    let rest = layout::without(column.windows(), entity);
    if rest.len() > 1 {
        seq![ColumnModel::Stack(rest)]
    } else if rest.len() == 1 {
        seq![ColumnModel::Single(rest[0])]
    } else {
        Seq::empty()
    }
}

/// The windows that are left of a column.
proof fn lemma_windows_left(column: ColumnModel, entity: Entity)
    ensures
        layout::all_windows(column_without(column, entity)) == layout::without(
            column.windows(),
            entity,
        ),
{
    let rest = layout::without(column.windows(), entity);
    let left = column_without(column, entity);
    if rest.len() > 1 {
        lemma_windows_of_one(ColumnModel::Stack(rest));
    } else if rest.len() == 1 {
        lemma_windows_of_one(ColumnModel::Single(rest[0]));
        assert(rest =~= seq![rest[0]]);
    } else {
        assert(left.map_values(|c: ColumnModel| c.windows()) =~= Seq::empty());
        assert(rest =~= Seq::empty());
    }
}

/// Removing a window replaces the column that holds it by what is left of it.
proof fn lemma_removed_parts(columns: Seq<ColumnModel>, entity: Entity, i: int)
    requires
        layout::index(columns, entity) == Some(i),
    ensures
        0 <= i < columns.len(),
        columns[i].holds(entity),
        columns == (columns.take(i) + seq![columns[i]]) + columns.skip(i + 1),
        layout::removed(columns, entity) == (columns.take(i) + column_without(columns[i], entity))
            + columns.skip(i + 1),
{
    search::lemma_first_index_meaning(columns, layout::holder(entity));
    let column = columns[i];
    assert(layout::holder(entity)(column));
    let left = column_without(column, entity);
    if column is Single {
        reveal_with_fuel(Seq::filter, 2);
        assert(column.windows() =~= seq![entity]);
        assert(seq![entity].drop_last() =~= Seq::empty());
        assert(layout::without(column.windows(), entity) =~= Seq::empty());
    }
    assert(columns =~= (columns.take(i) + seq![column]) + columns.skip(i + 1));
    assert(layout::removed(columns, entity) =~= (columns.take(i) + left) + columns.skip(i + 1));
}

/// A window that is once on a strip is in no other column than the one that holds it.
proof fn lemma_only_there(columns: Seq<ColumnModel>, entity: Entity, i: int)
    requires
        layout::index(columns, entity) == Some(i),
        laws::count(columns, entity) <= 1,
    ensures
        layout::without(layout::all_windows(columns.take(i)), entity) == layout::all_windows(
            columns.take(i),
        ),
        layout::without(layout::all_windows(columns.skip(i + 1)), entity) == layout::all_windows(
            columns.skip(i + 1),
        ),
{
    lemma_removed_parts(columns, entity, i);
    let before = columns.take(i);
    let behind = columns.skip(i + 1);
    let here = seq![columns[i]];
    lemma_count_add(before + here, behind, entity);
    lemma_count_add(before, here, entity);
    assert(layout::holder(entity)(here[0]));
    search::lemma_some_first_index(here, layout::holder(entity), 0);
    laws::lemma_index_count(here, entity);
    laws::lemma_all_windows_count(before, entity);
    laws::lemma_all_windows_count(behind, entity);
    laws::lemma_without_absent(layout::all_windows(before), entity);
    laws::lemma_without_absent(layout::all_windows(behind), entity);
}

/// Removing a window keeps all others in their order.
pub proof fn law_remove_keeps_the_order(columns: Seq<ColumnModel>, entity: Entity)
    requires
        laws::count(columns, entity) <= 1,
    ensures
        layout::all_windows(layout::removed(columns, entity)) == layout::all_windows(
            columns,
        ).filter(layout::is_not(entity)),
{
    let all = layout::all_windows(columns);
    laws::lemma_index_count(columns, entity);
    laws::lemma_all_windows_count(columns, entity);
    match layout::index(columns, entity) {
        None => {
            laws::lemma_without_absent(all, entity);
        },
        Some(i) => {
            lemma_removed_parts(columns, entity, i);
            lemma_only_there(columns, entity, i);
            let before = columns.take(i);
            let behind = columns.skip(i + 1);
            let here = seq![columns[i]];
            let left = column_without(columns[i], entity);
            lemma_windows_add(before + here, behind);
            lemma_windows_add(before, here);
            lemma_windows_of_one(columns[i]);
            lemma_windows_add(before + left, behind);
            lemma_windows_add(before, left);
            lemma_windows_left(columns[i], entity);
            let p = layout::is_not(entity);
            let (a, b, c) = (
                layout::all_windows(before),
                columns[i].windows(),
                layout::all_windows(behind),
            );
            Seq::filter_distributes_over_add(a + b, c, p);
            Seq::filter_distributes_over_add(a, b, p);
        },
    }
}

/// Removing a window leaves every column as it is that does not hold it: the one that
/// does is replaced by what is left of it, which is one column or none. A window that is
/// not on the strip changes nothing, so removing it again does not.
pub proof fn law_remove_leaves_other_columns(columns: Seq<ColumnModel>, entity: Entity)
    requires
        laws::count(columns, entity) <= 1,
    ensures
        layout::index(columns, entity) is None ==> layout::removed(columns, entity) == columns,
        layout::index(columns, entity) matches Some(i) ==> {
            &&& layout::removed(columns, entity) == (columns.take(i) + column_without(
                columns[i],
                entity,
            )) + columns.skip(i + 1)
            &&& forall|j: int|
                0 <= j < columns.len() && j != i ==> !(#[trigger] columns[j]).holds(entity)
        },
        layout::removed(layout::removed(columns, entity), entity) == layout::removed(
            columns,
            entity,
        ),
{
    let after = layout::removed(columns, entity);
    laws::law_remove_takes_only_that(columns, entity);
    laws::lemma_index_count(after, entity);
    if let Some(i) = layout::index(columns, entity) {
        lemma_removed_parts(columns, entity, i);
        search::lemma_first_index_meaning(columns, layout::holder(entity));
        assert forall|j: int| 0 <= j < columns.len() && j != i implies !(
        #[trigger] columns[j]).holds(entity) by {
            if j < i {
                assert(!layout::holder(entity)(columns[j]));
            } else if columns[j].holds(entity) {
                let before = columns.take(i) + seq![columns[i]];
                let behind = columns.skip(i + 1);
                let p = layout::holder(entity);
                lemma_count_add(before, behind, entity);
                assert(p(before[i]));
                search::lemma_some_first_index(before, p, i);
                laws::lemma_index_count(before, entity);
                assert(p(behind[j - i - 1]));
                search::lemma_some_first_index(behind, p, j - i - 1);
                laws::lemma_index_count(behind, entity);
            }
        }
    }
}

/// Removing a window leaves no stack with fewer than two windows: one that is left with
/// a single window is a stack no longer.
pub proof fn law_remove_keeps_stacks_tidy(columns: Seq<ColumnModel>, entity: Entity)
    requires
        is_tidy(columns),
    ensures
        is_tidy(layout::removed(columns, entity)),
{
    if let Some(i) = layout::index(columns, entity) {
        lemma_removed_parts(columns, entity, i);
        let after = layout::removed(columns, entity);
        let left = column_without(columns[i], entity);
        assert forall|j: int|
            0 <= j < after.len() && #[trigger] after[j] is Stack implies after[j].windows().len()
            > 1 by {
            if j < i {
                assert(after[j] == columns[j]);
            } else if j < i + left.len() {
                assert(after[j] == left[j - i]);
            } else {
                assert(after[j] == columns[j - left.len() + 1]);
            }
        }
    }
}

/// The list of places begins with another list.
pub open spec fn begins_with<A>(list: Seq<A>, start: Seq<A>) -> bool {
    start.len() <= list.len() && list.take(start.len() as int) == start
}

/// The places after a window that is new to the strip is appended: those that were there
/// stay as they are, and the new window follows behind the last column if it has a
/// frame.
pub proof fn law_appending_moves_nothing(
    columns: Seq<ColumnModel>,
    new: Entity,
    strip_height: int,
    frame: spec_fn(Entity) -> Option<IRect>,
)
    requires
        layout::index(columns, new) is None,
    ensures
        ({
            let was = positions::places(columns, strip_height, frame);
            let now = positions::places(
                columns.push(ColumnModel::Single(new)),
                strip_height,
                frame,
            );
            let edge = (
                ColumnModel::Single(new),
                positions::total_width(positions::leaders(columns, frame), frame),
            );
            &&& begins_with(now, was)
            &&& frame(new) is Some ==> now == was + positions::column_places(
                edge,
                strip_height,
                frame,
            )
            &&& frame(new) is None ==> now == was
        }),
{
    let column = ColumnModel::Single(new);
    let all = columns.push(column);
    let n = columns.len() as int;
    let top = |c: ColumnModel| c.top();
    let shown = positions::has_frame(frame);
    let was = positions::leaders(columns, frame);
    let now = positions::leaders(all, frame);
    assert(all.take(n) =~= columns);
    assert(all.take(n + 1) =~= all);
    all.lemma_filter_map_take_succ(top, n);
    assert(column.top() == Some(new));
    let tops = layout::tops(columns);
    assert(layout::tops(all) =~= tops.push(new));
    tops.lemma_filter_push(new, shown);
    assert forall|k: int| 0 <= k < was.len() implies layout::index(all, #[trigger] was[k])
        == layout::index(columns, was[k]) && layout::index(columns, was[k]) is Some by {
        search::lemma_filter_from(tops, shown, k);
        let c = search::lemma_filter_map_from(columns, top, tops.index_of(was[k]));
        assert(columns[c].windows()[0] == was[k]);
        let p = layout::holder(was[k]);
        search::lemma_some_first_index(columns, p, c);
        search::lemma_first_index_meaning(columns, p);
        let i = layout::index(columns, was[k])->0;
        assert(all[i] == columns[i]);
        assert forall|j: int| 0 <= j < i implies !p(#[trigger] all[j]) by {
            assert(all[j] == columns[j]);
            assert(!p(columns[j]));
        }
        search::lemma_first_index(all, p, i);
    }
    let before = positions::column_edges(columns, frame);
    let after = positions::column_edges(all, frame);
    let f = |edge: (ColumnModel, int)| positions::column_places(edge, strip_height, frame);
    assert forall|k: int| 0 <= k < was.len() implies #[trigger] after[k] == before[k] by {
        assert(now[k] == was[k]);
        assert(now.take(k) =~= was.take(k));
        let i = layout::index(columns, was[k])->0;
        search::lemma_first_index_meaning(columns, layout::holder(was[k]));
        assert(all[i] == columns[i]);
    }
    let places = positions::places(columns, strip_height, frame);
    if frame(new) is Some {
        let edge = (column, positions::total_width(was, frame));
        let p = layout::holder(new);
        search::lemma_first_index_meaning(columns, p);
        assert(all[n].windows()[0] == new);
        assert forall|j: int| 0 <= j < n implies !p(#[trigger] all[j]) by {
            assert(all[j] == columns[j]);
            assert(!p(columns[j]));
        }
        search::lemma_first_index(all, p, n);
        assert(now.take(was.len() as int) =~= was);
        assert(after =~= before.push(edge));
        assert(after.map_values(f) =~= before.map_values(f).push(f(edge)));
        before.map_values(f).lemma_flatten_push(f(edge));
        assert((places + f(edge)).take(places.len() as int) =~= places);
    } else {
        assert(after =~= before);
        assert(places.take(places.len() as int) =~= places);
    }
}

} // verus!
