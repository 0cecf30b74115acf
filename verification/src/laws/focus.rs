//! Moving the focus and the focused window along a strip.
use vstd::prelude::*;

use crate::commands;
use crate::commands::{Command, Direction, Operation, SwapOrigin};
use crate::geometry::Entity;
use crate::laws::places;
use crate::layout;
use crate::layout::ColumnModel;
use crate::search;

verus! {

/// Going south from a window of a stack that has another below it gives just that one,
/// and going north from there gives the window back.
pub proof fn law_south_and_north_go_one_place(
    columns: Seq<ColumnModel>,
    entity: Entity,
    below: Entity,
    i: int,
    p: int,
)
    requires
        places::only_at(columns, entity, i, p),
        places::only_at(columns, below, i, p + 1),
        columns[i] is Stack,
    ensures
        commands::in_direction(columns, Direction::South, entity) == Some(below),
        commands::in_direction(columns, Direction::North, below) == Some(entity),
{
    places::law_window_is_found_where_it_stands(columns, entity, i, p);
    places::law_window_is_found_where_it_stands(columns, below, i, p + 1);
}

/// There is nothing below the lowest window of a stack, nor above the topmost; a window
/// that has its column for itself stays with itself.
pub proof fn law_south_and_north_end_with_the_column(
    columns: Seq<ColumnModel>,
    entity: Entity,
    i: int,
    p: int,
)
    requires
        places::only_at(columns, entity, i, p),
    ensures
        columns[i] is Stack && p == columns[i].windows().len() - 1 ==> commands::in_direction(
            columns,
            Direction::South,
            entity,
        ) is None,
        columns[i] is Stack && p == 0 ==> commands::in_direction(columns, Direction::North, entity)
            is None,
        columns[i] is Single ==> commands::in_direction(columns, Direction::South, entity) == Some(
            entity,
        ) && commands::in_direction(columns, Direction::North, entity) == Some(entity),
{
    places::law_window_is_found_where_it_stands(columns, entity, i, p);
}

/// Going east or west gives the window in the very next column at the same place from
/// the top, or the lowest one where that column has fewer; past the ends of the strip
/// there is none.
pub proof fn law_east_and_west_go_one_column(
    columns: Seq<ColumnModel>,
    entity: Entity,
    i: int,
    p: int,
)
    requires
        places::only_at(columns, entity, i, p),
        places::all_filled(columns),
    ensures
        i + 1 < columns.len() ==> {
            let there = columns[i + 1].windows();
            commands::in_direction(columns, Direction::East, entity) == Some(
                if p < there.len() {
                    there[p]
                } else {
                    there[there.len() - 1]
                },
            )
        },
        i + 1 == columns.len() ==> commands::in_direction(columns, Direction::East, entity) is None,
        i > 0 ==> {
            let there = columns[i - 1].windows();
            commands::in_direction(columns, Direction::West, entity) == Some(
                if p < there.len() {
                    there[p]
                } else {
                    there[there.len() - 1]
                },
            )
        },
        i == 0 ==> commands::in_direction(columns, Direction::West, entity) is None,
{
    places::law_window_is_found_where_it_stands(columns, entity, i, p);
    if i + 1 < columns.len() {
        assert(columns[i + 1].windows().len() > 0);
    }
    if i > 0 {
        assert(columns[i - 1].windows().len() > 0);
    }
}

/// The first and the last window are the topmost of the outermost columns, from
/// wherever one goes.
pub proof fn law_first_and_last_are_the_ends(
    columns: Seq<ColumnModel>,
    entity: Entity,
    i: int,
    p: int,
)
    requires
        places::only_at(columns, entity, i, p),
        places::all_filled(columns),
    ensures
        commands::in_direction(columns, Direction::First, entity) == Some(columns[0].windows()[0]),
        commands::in_direction(columns, Direction::Last, entity) == Some(
            columns[columns.len() - 1].windows()[0],
        ),
{
    places::law_window_is_found_where_it_stands(columns, entity, i, p);
    assert(columns[0].windows().len() > 0);
    assert(columns[columns.len() - 1].windows().len() > 0);
}

/// From a window that is not on the strip there is nowhere to go.
pub proof fn law_nowhere_to_go_from_outside(
    columns: Seq<ColumnModel>,
    entity: Entity,
    direction: Direction,
)
    requires
        places::is_absent(columns, entity),
    ensures
        commands::in_direction(columns, direction, entity) is None,
{
    places::law_absent_window_is_not_found(columns, entity);
}

/// Of several commands to move the focus the first one counts; without one the focus
/// stays.
pub proof fn law_first_focus_command_counts(given: Seq<Command>, k: int, direction: Direction)
    requires
        0 <= k < given.len(),
        given[k] == Command::Window(Operation::Focus(direction)),
        forall|j: int|
            0 <= j < k ==> !(#[trigger] given[j] matches Command::Window(Operation::Focus(_))),
    ensures
        commands::focus_direction(given) == Some(direction),
{
    let p = commands::moves_focus();
    assert(p(given[k]));
    assert forall|j: int| 0 <= j < k implies !p(#[trigger] given[j]) by {
        assert(!(given[j] matches Command::Window(Operation::Focus(_))));
    }
    search::lemma_first_index(given, p, k);
}

/// Commands that do not move the focus leave it where it is.
pub proof fn law_other_commands_leave_the_focus(given: Seq<Command>)
    requires
        forall|j: int|
            0 <= j < given.len() ==> !(#[trigger] given[j] matches Command::Window(
                Operation::Focus(_),
            )),
    ensures
        commands::focus_direction(given) is None,
{
    let p = commands::moves_focus();
    assert forall|j: int| 0 <= j < given.len() implies !p(#[trigger] given[j]) by {
        assert(!(given[j] matches Command::Window(Operation::Focus(_))));
    }
    search::lemma_no_first_index(given, p);
}

// ---------------------------------------------------------------------------
// Swapping
// ---------------------------------------------------------------------------
/// Two columns are exchanged, and every other one stays at its index.
pub open spec fn are_exchanged(
    before: Seq<ColumnModel>,
    after: Seq<ColumnModel>,
    i: int,
    j: int,
) -> bool {
    &&& after.len() == before.len()
    &&& after[i] == before[j]
    &&& after[j] == before[i]
    &&& forall|k: int|
        0 <= k < before.len() && k != i && k != j ==> #[trigger] after[k] == before[k]
}

/// The window appears at the edge of the display where its column becomes an outermost
/// one, and else where the topmost window of the column it replaces is.
pub open spec fn appears(columns: Seq<ColumnModel>, to: int) -> SwapOrigin {
    if to == 0 {
        SwapOrigin::FarLeft
    } else if to == columns.len() - 1 {
        SwapOrigin::FarRight
    } else {
        SwapOrigin::At(columns[to].windows()[0])
    }
}

/// Each window of a column stands only there.
pub open spec fn stand_only_there(columns: Seq<ColumnModel>, i: int) -> bool {
    forall|p: int|
        0 <= p < columns[i].windows().len() ==> places::only_at(
            columns,
            #[trigger] columns[i].windows()[p],
            i,
            p,
        )
}

/// Swapping a window east or west that has a column beside it exchanges its column with
/// that one and leaves every other at its index.
pub proof fn law_swap_exchanges_neighbours(
    columns: Seq<ColumnModel>,
    entity: Entity,
    i: int,
    p: int,
    east: bool,
    known: Seq<Entity>,
)
    requires
        places::only_at(columns, entity, i, p),
        places::all_filled(columns),
        ({
            let to = if east {
                i + 1
            } else {
                i - 1
            };
            &&& 0 <= to < columns.len()
            &&& stand_only_there(columns, to)
            &&& known.contains(entity)
            &&& known.contains(columns[to].windows()[0])
        }),
    ensures
        ({
            let to = if east {
                i + 1
            } else {
                i - 1
            };
            let direction = if east {
                Direction::East
            } else {
                Direction::West
            };
            let swapped = commands::swapped_in_direction(columns, direction, entity, known);
            &&& swapped is Some
            &&& (swapped->0).0 == appears(columns, to)
            &&& are_exchanged(columns, (swapped->0).1, i, to)
        }),
{
    let to = if east {
        i + 1
    } else {
        i - 1
    };
    law_east_and_west_go_one_column(columns, entity, i, p);
    places::law_window_is_found_where_it_stands(columns, entity, i, p);
    let there = columns[to].windows();
    assert(there.len() > 0);
    let q = if p < there.len() {
        p
    } else {
        there.len() - 1
    };
    assert(places::only_at(columns, there[q], to, q));
    places::law_window_is_found_where_it_stands(columns, there[q], to, q);
}

/// Swapping a window with the first or the last one takes its column to that end of the
/// strip and keeps all others in their order.
pub proof fn law_swap_goes_to_the_ends(
    columns: Seq<ColumnModel>,
    entity: Entity,
    i: int,
    p: int,
    first: bool,
    known: Seq<Entity>,
)
    requires
        places::only_at(columns, entity, i, p),
        places::all_filled(columns),
        known.contains(entity),
        ({
            let to = if first {
                0
            } else {
                columns.len() - 1
            };
            places::only_at(columns, columns[to].windows()[0], to, 0)
        }),
    ensures
        ({
            let direction = if first {
                Direction::First
            } else {
                Direction::Last
            };
            let swapped = commands::swapped_in_direction(columns, direction, entity, known);
            let others = columns.take(i) + columns.skip(i + 1);
            &&& swapped is Some
            &&& first ==> (swapped->0) == (SwapOrigin::FarLeft, seq![columns[i]] + others)
            &&& !first && columns.len() > 1 ==> (swapped->0) == (
                SwapOrigin::FarRight,
                others.push(columns[i]),
            )
        }),
{
    let to = if first {
        0
    } else {
        columns.len() - 1
    };
    law_first_and_last_are_the_ends(columns, entity, i, p);
    places::law_window_is_found_where_it_stands(columns, entity, i, p);
    places::law_window_is_found_where_it_stands(columns, columns[to].windows()[0], to, 0);
    let others = columns.take(i) + columns.skip(i + 1);
    let moved = commands::column_moved(columns, i, to);
    if first {
        assert(moved =~= seq![columns[i]] + others);
    } else {
        assert(moved =~= others.push(columns[i]));
    }
}

/// Swapping up or down leaves the strip as it is: a window does not leave its column.
pub proof fn law_swap_up_or_down_moves_no_column(
    columns: Seq<ColumnModel>,
    entity: Entity,
    i: int,
    p: int,
    direction: Direction,
    known: Seq<Entity>,
)
    requires
        places::only_at(columns, entity, i, p),
        stand_only_there(columns, i),
        direction == Direction::North || direction == Direction::South,
    ensures
        commands::swapped_in_direction(columns, direction, entity, known) matches Some(
            (_, after),
        ) ==> after == columns,
{
    let windows = columns[i].windows();
    places::law_window_is_found_where_it_stands(columns, entity, i, p);
    if p > 0 {
        assert(places::only_at(columns, windows[p - 1], i, p - 1));
        places::law_window_is_found_where_it_stands(columns, windows[p - 1], i, p - 1);
    }
    if p + 1 < windows.len() {
        assert(places::only_at(columns, windows[p + 1], i, p + 1));
        places::law_window_is_found_where_it_stands(columns, windows[p + 1], i, p + 1);
    }
    assert(commands::column_moved(columns, i, i) =~= columns);
}

/// Nothing is swapped past the ends of the strip, nor for a window that is not known.
pub proof fn law_nothing_to_swap_with(
    columns: Seq<ColumnModel>,
    entity: Entity,
    i: int,
    p: int,
    known: Seq<Entity>,
    direction: Direction,
)
    requires
        places::only_at(columns, entity, i, p),
        places::all_filled(columns),
        direction == Direction::East && i + 1 == columns.len() || direction == Direction::West && i
            == 0 || !known.contains(entity),
    ensures
        commands::swapped_in_direction(columns, direction, entity, known) is None,
{
    law_east_and_west_go_one_column(columns, entity, i, p);
}

/// Nothing is swapped where the window that would be replaced is in the middle of the
/// strip and not known.
pub proof fn law_unknown_neighbour_is_not_replaced(
    columns: Seq<ColumnModel>,
    entity: Entity,
    i: int,
    p: int,
    east: bool,
    known: Seq<Entity>,
)
    requires
        places::only_at(columns, entity, i, p),
        places::all_filled(columns),
        ({
            let to = if east {
                i + 1
            } else {
                i - 1
            };
            &&& 0 < to < columns.len() - 1
            &&& stand_only_there(columns, to)
            &&& !known.contains(columns[to].windows()[0])
        }),
    ensures
        commands::swapped_in_direction(
            columns,
            if east {
                Direction::East
            } else {
                Direction::West
            },
            entity,
            known,
        ) is None,
{
    let to = if east {
        i + 1
    } else {
        i - 1
    };
    law_east_and_west_go_one_column(columns, entity, i, p);
    places::law_window_is_found_where_it_stands(columns, entity, i, p);
    let there = columns[to].windows();
    assert(there.len() > 0);
    let q = if p < there.len() {
        p
    } else {
        there.len() - 1
    };
    assert(places::only_at(columns, there[q], to, q));
    places::law_window_is_found_where_it_stands(columns, there[q], to, q);
}

/// A window that stands at one place only does so too, at the exchanged index, once two
/// columns are exchanged.
proof fn lemma_place_after_exchange(
    before: Seq<ColumnModel>,
    after: Seq<ColumnModel>,
    i: int,
    j: int,
    entity: Entity,
    p: int,
)
    requires
        0 <= i < before.len(),
        0 <= j < before.len(),
        are_exchanged(before, after, i, j),
        places::only_at(before, entity, i, p),
    ensures
        places::only_at(after, entity, j, p),
{
    assert(places::stands_at(after, entity, j, p));
    assert forall|k: int, q: int| #[trigger] places::stands_at(after, entity, k, q) implies k == j
        && q == p by {
        let from = if k == i {
            j
        } else if k == j {
            i
        } else {
            k
        };
        assert(after[k] == before[from]);
        assert(places::stands_at(before, entity, from, q));
    }
}

/// Swapping a window east and then west, or the other way round, leaves the strip as it
/// was.
pub proof fn law_swapping_back_restores_the_strip(
    columns: Seq<ColumnModel>,
    entity: Entity,
    i: int,
    p: int,
    east: bool,
    known: Seq<Entity>,
)
    requires
        places::only_at(columns, entity, i, p),
        places::all_filled(columns),
        ({
            let to = if east {
                i + 1
            } else {
                i - 1
            };
            &&& 0 <= to < columns.len()
            &&& stand_only_there(columns, to)
            &&& known.contains(entity)
            &&& known.contains(columns[to].windows()[0])
        }),
    ensures
        ({
            let (there, back) = if east {
                (Direction::East, Direction::West)
            } else {
                (Direction::West, Direction::East)
            };
            let swapped = commands::swapped_in_direction(columns, there, entity, known);
            let restored = commands::swapped_in_direction((swapped->0).1, back, entity, known);
            &&& swapped is Some
            &&& restored is Some
            &&& (restored->0).1 == columns
        }),
{
    let to = if east {
        i + 1
    } else {
        i - 1
    };
    let (there, back) = if east {
        (Direction::East, Direction::West)
    } else {
        (Direction::West, Direction::East)
    };
    law_swap_exchanges_neighbours(columns, entity, i, p, east, known);
    let after = (commands::swapped_in_direction(columns, there, entity, known)->0).1;
    lemma_place_after_exchange(columns, after, i, to, entity, p);
    assert forall|q: int| 0 <= q < after[i].windows().len() implies places::only_at(
        after,
        #[trigger] after[i].windows()[q],
        i,
        q,
    ) by {
        let other = columns[to].windows()[q];
        assert(places::only_at(columns, other, to, q));
        assert(are_exchanged(columns, after, to, i));
        lemma_place_after_exchange(columns, after, to, i, other, q);
    }
    assert forall|k: int| 0 <= k < after.len() implies (#[trigger] after[k]).windows().len()
        > 0 by {
        let from = if k == i {
            to
        } else if k == to {
            i
        } else {
            k
        };
        assert(after[k] == columns[from]);
    }
    law_swap_exchanges_neighbours(after, entity, to, p, !east, known);
    let restored = (commands::swapped_in_direction(after, back, entity, known)->0).1;
    assert forall|k: int| 0 <= k < columns.len() implies #[trigger] restored[k] == columns[k] by {
        if k != i && k != to {
            assert(after[k] == columns[k]);
        }
    }
    assert(restored =~= columns);
}

} // verus!
