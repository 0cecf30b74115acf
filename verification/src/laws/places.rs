//! Where a window stands on a strip.
use vstd::prelude::*;

use crate::geometry::Entity;
use crate::layout;
use crate::layout::ColumnModel;
use crate::search;

verus! {

/// The window stands in column `i`, at place `p` from the top.
pub open spec fn stands_at(columns: Seq<ColumnModel>, entity: Entity, i: int, p: int) -> bool {
    &&& 0 <= i < columns.len()
    &&& 0 <= p < columns[i].windows().len()
    &&& columns[i].windows()[p] == entity
}

/// The window stands there and nowhere else.
pub open spec fn only_at(columns: Seq<ColumnModel>, entity: Entity, i: int, p: int) -> bool {
    &&& stands_at(columns, entity, i, p)
    &&& forall|j: int, q: int| #[trigger]
        stands_at(columns, entity, j, q) ==> j == i && q == p
}

/// The window stands nowhere.
pub open spec fn is_absent(columns: Seq<ColumnModel>, entity: Entity) -> bool {
    forall|j: int, q: int| !#[trigger] stands_at(columns, entity, j, q)
}

/// Every column holds a window.
pub open spec fn all_filled(columns: Seq<ColumnModel>) -> bool {
    forall|i: int| 0 <= i < columns.len() ==> (#[trigger] columns[i]).windows().len() > 0
}

/// A column that holds a window does so at some place.
pub proof fn lemma_holds_at(columns: Seq<ColumnModel>, entity: Entity, i: int) -> (p: int)
    requires
        0 <= i < columns.len(),
        columns[i].holds(entity),
    ensures
        stands_at(columns, entity, i, p),
{
    let windows = columns[i].windows();
    let p = choose|p: int| 0 <= p < windows.len() && windows[p] == entity;
    assert(stands_at(columns, entity, i, p));
    p
}

/// A window is found in the column where it stands, at its place.
pub proof fn law_window_is_found_where_it_stands(
    columns: Seq<ColumnModel>,
    entity: Entity,
    i: int,
    p: int,
)
    requires
        only_at(columns, entity, i, p),
    ensures
        layout::index(columns, entity) == Some(i),
        columns[i].position_of(entity) == Some(p),
        columns[i].holds(entity),
{
    let f = layout::holder(entity);
    assert(columns[i].windows()[p] == entity);
    assert(f(columns[i]));
    assert forall|j: int| 0 <= j < i implies !f(#[trigger] columns[j]) by {
        if columns[j].holds(entity) {
            let q = lemma_holds_at(columns, entity, j);
        }
    }
    search::lemma_first_index(columns, f, i);
    let windows = columns[i].windows();
    let g = layout::is(entity);
    assert forall|q: int| 0 <= q < p implies !g(#[trigger] windows[q]) by {
        if windows[q] == entity {
            assert(stands_at(columns, entity, i, q));
        }
    }
    search::lemma_first_index(windows, g, p);
}

/// A window that stands nowhere is not found.
pub proof fn law_absent_window_is_not_found(columns: Seq<ColumnModel>, entity: Entity)
    requires
        is_absent(columns, entity),
    ensures
        layout::index(columns, entity) is None,
{
    let f = layout::holder(entity);
    assert forall|j: int| 0 <= j < columns.len() implies !f(#[trigger] columns[j]) by {
        if columns[j].holds(entity) {
            let q = lemma_holds_at(columns, entity, j);
        }
    }
    search::lemma_no_first_index(columns, f);
}

} // verus!
