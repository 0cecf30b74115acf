//! What holds of every strip: opening a window resizes no other, no operation
//! loses or doubles a window, and a column shares the height of the strip.
use vstd::prelude::*;

use crate::geometry;
use crate::geometry::{Entity, IRect};
use crate::layout;
use crate::layout::binpack;
use crate::layout::positions;
use crate::layout::positions::Placement;
use crate::layout::ColumnModel;
use crate::search;

verus! {

// ---------------------------------------------------------------------------
// Which windows a strip holds
// ---------------------------------------------------------------------------
/// One for this window, nothing for another.
pub open spec fn one_if(entity: Entity) -> spec_fn(Entity) -> nat {
    |e: Entity|
        if e == entity {
            1
        } else {
            0
        }
}

/// How often a window is in a column.
pub open spec fn in_column(entity: Entity) -> spec_fn(ColumnModel) -> nat {
    |c: ColumnModel| search::sum_by(c.windows(), one_if(entity))
}

/// How often a window is in a strip.
pub open spec fn count(columns: Seq<ColumnModel>, entity: Entity) -> nat {
    search::sum_by(columns, in_column(entity))
}

/// Two strips hold the same windows, each as often.
pub open spec fn same_windows(a: Seq<ColumnModel>, b: Seq<ColumnModel>) -> bool {
    forall|e: Entity| count(a, e) == #[trigger] count(b, e)
}

/// A single column holds its window once.
proof fn lemma_single_count(entity: Entity, x: Entity)
    ensures
        in_column(x)(ColumnModel::Single(entity)) == one_if(x)(entity),
{
    assert(seq![entity] =~= Seq::empty().push(entity));
    search::lemma_sum_push(Seq::empty(), one_if(x), entity);
}

/// Inserting an element adds its share, wherever it goes.
proof fn lemma_sum_insert<A>(s: Seq<A>, f: spec_fn(A) -> nat, i: int, a: A)
    requires
        0 <= i <= s.len(),
    ensures
        search::sum_by(s.insert(i, a), f) == search::sum_by(s, f) + f(a),
{
    search::lemma_sum_remove(s.insert(i, a), f, i);
    assert(s.insert(i, a).remove(i) =~= s);
}

/// Leaving out a window leaves the others, each as often as before.
proof fn lemma_without_count(stack: Seq<Entity>, entity: Entity, x: Entity)
    ensures
        search::sum_by(layout::without(stack, entity), one_if(x)) == if x == entity {
            0
        } else {
            search::sum_by(stack, one_if(x))
        },
    decreases stack.len(),
{
    reveal(Seq::filter);
    if stack.len() > 0 {
        let head = stack.drop_last();
        let last = stack.last();
        lemma_without_count(head, entity, x);
        if last != entity {
            search::lemma_sum_push(layout::without(head, entity), one_if(x), last);
        }
    }
}

/// A window that is in a column is counted there.
proof fn lemma_holds_count(column: ColumnModel, entity: Entity)
    ensures
        column.holds(entity) <==> in_column(entity)(column) > 0,
{
    let windows = column.windows();
    if column.holds(entity) {
        let i = choose|i: int| 0 <= i < windows.len() && windows[i] == entity;
        search::lemma_sum_has(windows, one_if(entity), i);
    }
    if in_column(entity)(column) > 0 {
        let i = search::lemma_sum_positive(windows, one_if(entity));
        assert(windows[i] == entity);
    }
}

/// A new column adds its window and changes no other.
pub proof fn law_insert_adds_one(columns: Seq<ColumnModel>, at: int, entity: Entity)
    requires
        0 <= at,
    ensures
        forall|x: Entity| #[trigger]
            count(layout::inserted(columns, at, entity), x) == count(columns, x) + one_if(x)(
                entity,
            ),
{
    assert forall|x: Entity| #[trigger]
        count(layout::inserted(columns, at, entity), x) == count(columns, x) + one_if(x)(
            entity,
        ) by {
        lemma_single_count(entity, x);
        if at >= columns.len() {
            search::lemma_sum_push(columns, in_column(x), ColumnModel::Single(entity));
        } else {
            lemma_sum_insert(columns, in_column(x), at, ColumnModel::Single(entity));
        }
    }
}

/// The windows of a strip are those that it counts.
pub proof fn lemma_all_windows_count(columns: Seq<ColumnModel>, x: Entity)
    ensures
        layout::all_windows(columns).contains(x) <==> count(columns, x) > 0,
    decreases columns.len(),
{
    let f = |c: ColumnModel| c.windows();
    if columns.len() == 0 {
        assert(columns.map_values(f) =~= Seq::<Seq<Entity>>::empty());
    } else {
        let head = columns.drop_last();
        let last = columns.last();
        lemma_all_windows_count(head, x);
        lemma_holds_count(last, x);
        assert(columns.map_values(f) =~= head.map_values(f).push(last.windows()));
        head.map_values(f).lemma_flatten_push(last.windows());
        let (a, b) = (layout::all_windows(head), last.windows());
        assert((a + b).contains(x) <==> a.contains(x) || b.contains(x)) by {
            if a.contains(x) {
                assert((a + b)[a.index_of(x)] == x);
            }
            if b.contains(x) {
                assert((a + b)[a.len() + b.index_of(x)] == x);
            }
            if (a + b).contains(x) {
                let i = (a + b).index_of(x);
                if i < a.len() {
                    assert(a[i] == x);
                } else {
                    assert(b[i - a.len()] == x);
                }
            }
        }
    }
}

/// Removing a window takes it out of the first column that holds it, and
/// changes no other. A window that was in the strip once is then gone.
pub proof fn law_remove_takes_only_that(columns: Seq<ColumnModel>, entity: Entity)
    ensures
        forall|x: Entity|
            x != entity ==> #[trigger] count(layout::removed(columns, entity), x) == count(
                columns,
                x,
            ),
        count(columns, entity) <= 1 ==> count(layout::removed(columns, entity), entity) == 0,
{
    search::lemma_first_index_meaning(columns, layout::holder(entity));
    let after = layout::removed(columns, entity);
    match layout::index(columns, entity) {
        None => {
            if count(columns, entity) > 0 {
                let i = search::lemma_sum_positive(columns, in_column(entity));
                lemma_holds_count(columns[i], entity);
                assert(layout::holder(entity)(columns[i]));
                assert(false);
            }
        },
        Some(i) => {
            lemma_holds_count(columns[i], entity);
            assert forall|x: Entity| #[trigger]
                count(after, x) + in_column(x)(columns[i]) == count(columns, x) + if x == entity {
                    0
                } else {
                    in_column(x)(columns[i])
                } by {
                search::lemma_sum_remove(columns, in_column(x), i);
                match columns[i] {
                    ColumnModel::Single(only) => {
                        assert(only == entity);
                        lemma_single_count(only, x);
                    },
                    ColumnModel::Stack(stack) => {
                        lemma_without_count(stack, entity, x);
                        let rest = layout::without(stack, entity);
                        if rest.len() > 1 {
                            search::lemma_sum_update(
                                columns,
                                in_column(x),
                                i,
                                ColumnModel::Stack(rest),
                            );
                        } else if rest.len() == 1 {
                            lemma_single_count(rest[0], x);
                            assert(rest =~= seq![rest[0]]);
                            search::lemma_sum_update(
                                columns,
                                in_column(x),
                                i,
                                ColumnModel::Single(rest[0]),
                            );
                        }
                    },
                }
            }
            assert(count(after, entity) + in_column(entity)(columns[i]) == count(columns, entity));
        },
    }
}

/// A window has an index on a strip exactly where the strip counts it.
pub proof fn lemma_index_count(columns: Seq<ColumnModel>, entity: Entity)
    ensures
        layout::index(columns, entity) is Some <==> count(columns, entity) > 0,
{
    let p = layout::holder(entity);
    search::lemma_first_index_meaning(columns, p);
    if let Some(i) = layout::index(columns, entity) {
        lemma_holds_count(columns[i], entity);
        search::lemma_sum_has(columns, in_column(entity), i);
    }
    if count(columns, entity) > 0 {
        let i = search::lemma_sum_positive(columns, in_column(entity));
        lemma_holds_count(columns[i], entity);
        assert(p(columns[i]));
    }
}

/// How often windows are on a strip after some are taken off.
pub proof fn lemma_without_all(columns: Seq<ColumnModel>, gone: Seq<Entity>, x: Entity)
    requires
        forall|e: Entity| #[trigger] count(columns, e) <= 1,
    ensures
        count(layout::without_all(columns, gone), x) == if gone.contains(x) {
            0
        } else {
            count(columns, x)
        },
    decreases gone.len(),
{
    if gone.len() > 0 {
        let head = gone.drop_last();
        let last = gone.last();
        let before = layout::without_all(columns, head);
        lemma_without_all(columns, head, x);
        law_remove_takes_only_that(before, last);
        if gone.contains(x) && x != last {
            assert(head[gone.index_of(x)] == x);
        }
        if head.contains(x) {
            assert(gone[head.index_of(x)] == x);
        }
        if x == last {
            assert(gone[gone.len() - 1] == x);
        }
    }
}

/// Swapping two columns loses and doubles no window.
pub proof fn law_swap_keeps_windows(columns: Seq<ColumnModel>, left: int, right: int)
    requires
        0 <= left < columns.len(),
        0 <= right < columns.len(),
    ensures
        same_windows(columns, layout::swapped(columns, left, right)),
{
    assert forall|x: Entity|
        count(columns, x) == #[trigger] count(layout::swapped(columns, left, right), x) by {
        search::lemma_sum_update(columns, in_column(x), left, columns[right]);
        search::lemma_sum_update(
            columns.update(left, columns[right]),
            in_column(x),
            right,
            columns[left],
        );
    }
}

/// Stacking a window loses and doubles no window.
pub proof fn law_stack_keeps_windows(columns: Seq<ColumnModel>, entity: Entity)
    ensures
        same_windows(columns, layout::stacked(columns, entity)),
{
    search::lemma_first_index_meaning(columns, layout::holder(entity));
    match layout::index(columns, entity) {
        None => {},
        Some(i) => {
            if i > 0 && columns[i] is Single {
                let left = columns[i - 1].windows();
                let grown = ColumnModel::Stack(left.push(entity));
                assert(columns[i] == ColumnModel::Single(entity)) by {
                    assert(columns[i].holds(entity));
                }
                assert forall|x: Entity|
                    count(columns, x) == #[trigger] count(layout::stacked(columns, entity), x) by {
                    search::lemma_sum_remove(columns, in_column(x), i);
                    search::lemma_sum_update(columns.remove(i), in_column(x), i - 1, grown);
                    search::lemma_sum_push(left, one_if(x), entity);
                    lemma_single_count(entity, x);
                }
            }
        },
    }
}

/// A window that is stacked onto another one is the last of that one's column. It
/// leaves every other window in the strip as often as it was there.
pub proof fn law_stacks_onto_its_target(
    columns: Seq<ColumnModel>,
    entity: Entity,
    onto: Entity,
)
    requires
        entity != onto,
        count(columns, entity) == 1,
        layout::index(columns, onto) is Some,
    ensures
        same_windows(columns, layout::stacked_onto(columns, entity, onto)),
        ({
            let after = layout::stacked_onto(columns, entity, onto);
            let i = layout::index(after, onto);
            &&& i is Some
            &&& layout::index(after, entity) == i
            &&& after[i->0] is Stack
            &&& after[i->0].windows().last() == entity
        }),
{
    let rest = layout::removed(columns, entity);
    let after = layout::stacked_onto(columns, entity, onto);
    law_remove_takes_only_that(columns, entity);
    lemma_index_count(columns, entity);
    lemma_index_count(columns, onto);
    lemma_index_count(rest, onto);
    lemma_index_count(rest, entity);
    search::lemma_first_index_meaning(rest, layout::holder(onto));
    search::lemma_first_index_meaning(rest, layout::holder(entity));
    let i = layout::index(rest, onto)->0;
    let below = rest[i].windows();
    let grown = ColumnModel::Stack(below.push(entity));
    assert(count(rest, onto) == count(columns, onto));
    assert forall|x: Entity| count(columns, x) == #[trigger] count(after, x) by {
        search::lemma_sum_update(rest, in_column(x), i, grown);
        search::lemma_sum_push(below, one_if(x), entity);
        if x != entity {
            assert(count(rest, x) == count(columns, x));
        }
    }
    assert(after[i] == grown);
    assert(below.push(entity)[below.len() as int] == entity);
    assert(below.contains(onto)) by {
        assert(layout::holder(onto)(rest[i]));
    }
    let place = below.index_of(onto);
    assert(below.push(entity)[place] == onto);
    assert forall|j: int| 0 <= j < i implies !(#[trigger] layout::holder(onto)(after[j]))
        && !layout::holder(entity)(after[j]) by {
        assert(after[j] == rest[j]);
        assert(!layout::holder(onto)(rest[j]));
        assert(!layout::holder(entity)(rest[j]));
    }
    search::lemma_first_index(after, layout::holder(onto), i);
    search::lemma_first_index(after, layout::holder(entity), i);
}

/// Unstacking a window that is in its stack once loses and doubles no window.
pub proof fn law_unstack_keeps_windows(columns: Seq<ColumnModel>, entity: Entity)
    requires
        layout::index(columns, entity) matches Some(i) ==> in_column(entity)(columns[i]) == 1,
    ensures
        same_windows(columns, layout::unstacked(columns, entity)),
{
    search::lemma_first_index_meaning(columns, layout::holder(entity));
    match layout::index(columns, entity) {
        None => {},
        Some(i) => match columns[i] {
            ColumnModel::Single(_) => {},
            ColumnModel::Stack(stack) => {
                let rest = layout::without(stack, entity);
                let left = if rest.len() == 1 {
                    ColumnModel::Single(rest[0])
                } else {
                    ColumnModel::Stack(rest)
                };
                assert forall|x: Entity|
                    count(columns, x) == #[trigger] count(
                        layout::unstacked(columns, entity),
                        x,
                    ) by {
                    lemma_without_count(stack, entity, x);
                    if rest.len() == 1 {
                        lemma_single_count(rest[0], x);
                        assert(rest =~= seq![rest[0]]);
                    }
                    search::lemma_sum_update(columns, in_column(x), i, left);
                    lemma_sum_insert(
                        columns.update(i, left),
                        in_column(x),
                        i + 1,
                        ColumnModel::Single(entity),
                    );
                    lemma_single_count(entity, x);
                }
            },
        },
    }
}

/// Leaving out the window that was just added to a stack gives the stack back.
proof fn lemma_without_pushed(stack: Seq<Entity>, entity: Entity)
    requires
        !stack.contains(entity),
    ensures
        layout::without(stack.push(entity), entity) == stack,
{
    stack.lemma_filter_push(entity, layout::is_not(entity));
    lemma_without_absent(stack, entity);
}

/// Leaving out a window that is not there changes nothing.
pub proof fn lemma_without_absent(stack: Seq<Entity>, entity: Entity)
    requires
        !stack.contains(entity),
    ensures
        layout::without(stack, entity) == stack,
    decreases stack.len(),
{
    reveal(Seq::filter);
    if stack.len() > 0 {
        assert(stack[stack.len() - 1] != entity);
        assert forall|i: int| 0 <= i < stack.len() - 1 implies stack.drop_last()[i] != entity by {
            assert(stack[i] != entity);
        }
        lemma_without_absent(stack.drop_last(), entity);
        assert(stack =~= stack.drop_last().push(stack.last()));
    } else {
        assert(stack.filter(layout::is_not(entity)) =~= stack);
    }
}

/// Unstacking undoes stacking: a single window that is stacked onto the column
/// to its left and unstacked again leaves the strip as it was. The column on
/// the left is one that the strip's own operations build: a single window, or
/// a stack of at least two.
pub proof fn law_unstack_undoes_stack(columns: Seq<ColumnModel>, entity: Entity)
    requires
        layout::index(columns, entity) matches Some(i) && i > 0 && columns[i] is Single && (
        columns[i - 1] is Stack ==> columns[i - 1].windows().len() > 1),
    ensures
        layout::unstacked(layout::stacked(columns, entity), entity) == columns,
{
    search::lemma_first_index_meaning(columns, layout::holder(entity));
    let i = layout::index(columns, entity)->0;
    let left = columns[i - 1].windows();
    let joined = layout::stacked(columns, entity);
    assert(columns[i] == ColumnModel::Single(entity)) by {
        assert(columns[i].holds(entity));
    }
    assert(!layout::holder(entity)(columns[i - 1]));
    lemma_without_pushed(left, entity);
    assert(joined[i - 1] == ColumnModel::Stack(left.push(entity)));
    assert(search::is_first(joined, layout::holder(entity), i - 1)) by {
        assert(left.push(entity)[left.len() as int] == entity);
        assert(joined[i - 1].holds(entity));
        assert forall|j: int| 0 <= j < i - 1 implies !layout::holder(entity)(
            #[trigger] joined[j],
        ) by {
            assert(joined[j] == columns[j]);
        }
    }
    search::lemma_first_index(joined, layout::holder(entity), i - 1);
    assert(layout::unstacked(joined, entity) =~= columns) by {
        match columns[i - 1] {
            ColumnModel::Single(only) => {
                assert(left =~= seq![only]);
            },
            ColumnModel::Stack(stack) => {},
        }
    }
}

// ---------------------------------------------------------------------------
// Opening a window resizes no other
// ---------------------------------------------------------------------------
/// Mapping and filtering goes part by part.
proof fn lemma_filter_map_add<A, B>(a: Seq<A>, b: Seq<A>, f: spec_fn(A) -> Option<B>)
    ensures
        (a + b).filter_map(f) == a.filter_map(f) + b.filter_map(f),
    decreases b.len(),
{
    if b.len() == 0 {
        assert(a + b =~= a);
        assert(a.filter_map(f) + b.filter_map(f) =~= a.filter_map(f));
    } else {
        lemma_filter_map_add(a, b.drop_last(), f);
        assert((a + b).drop_last() =~= a + b.drop_last());
        assert((a + b).filter_map(f) =~= a.filter_map(f) + b.filter_map(f));
    }
}

/// Widths add up part by part.
proof fn lemma_width_add(a: Seq<Entity>, b: Seq<Entity>, frame: spec_fn(Entity) -> Option<IRect>)
    ensures
        positions::total_width(a + b, frame) == positions::total_width(a, frame)
            + positions::total_width(b, frame),
    decreases b.len(),
{
    if b.len() == 0 {
        assert(a + b =~= a);
    } else {
        lemma_width_add(a, b.drop_last(), frame);
        assert((a + b).drop_last() =~= a + b.drop_last());
    }
}

/// A leader is a window of the strip.
proof fn lemma_leader_is_in_strip(
    columns: Seq<ColumnModel>,
    frame: spec_fn(Entity) -> Option<IRect>,
    k: int,
)
    requires
        0 <= k < positions::leaders(columns, frame).len(),
    ensures
        layout::index(columns, positions::leaders(columns, frame)[k]) is Some,
{
    broadcast use vstd::seq_lib::group_seq_properties;

    let leader = positions::leaders(columns, frame)[k];
    let tops = layout::tops(columns);
    assert(positions::leaders(columns, frame).contains(leader));
    tops.lemma_filter_contains_rev(positions::has_frame(frame), leader);
    columns.lemma_filter_map_contains(|c: ColumnModel| c.top(), leader);
    let c = choose|c: ColumnModel| #[trigger] columns.contains(c) && c.top() == Some(leader);
    let i = choose|i: int| 0 <= i < columns.len() && columns[i] == c;
    assert(columns[i].windows()[0] == leader);
    search::lemma_some_first_index(columns, layout::holder(leader), i);
}

/// A strip that a new column is inserted into still finds its windows in the
/// columns they were in.
proof fn lemma_index_after_insert(
    columns: Seq<ColumnModel>,
    at: int,
    new: Entity,
    window: Entity,
)
    requires
        0 <= at <= columns.len(),
        window != new,
        layout::index(columns, window) is Some,
    ensures
        layout::index(layout::inserted(columns, at, new), window) is Some,
        layout::inserted(columns, at, new)[layout::index(
            layout::inserted(columns, at, new),
            window,
        )->0] == columns[layout::index(columns, window)->0],
{
    search::lemma_first_index_meaning(columns, layout::holder(window));
    let i = layout::index(columns, window)->0;
    let after = layout::inserted(columns, at, new);
    let j = if i < at {
        i
    } else {
        i + 1
    };
    assert(after[j] == columns[i]);
    assert(search::is_first(after, layout::holder(window), j)) by {
        assert forall|m: int| 0 <= m < j implies !layout::holder(window)(#[trigger] after[m]) by {
            if m == at {
                assert(after[m] == ColumnModel::Single(new));
                assert(seq![new][0] == new);
            } else if m < at {
                assert(after[m] == columns[m]);
            } else {
                assert(after[m] == columns[m - 1]);
            }
        }
    }
    search::lemma_first_index(after, layout::holder(window), j);
}

/// The columns of a strip and their left edges, once a new column has been
/// inserted at `at` before the `m`-th of them: those before it stay where they
/// are, and those after it move right by the width of the new window.
pub open spec fn edges_after_opening(
    before: Seq<(ColumnModel, int)>,
    m: int,
    new: Entity,
    edge: int,
    width: int,
) -> Seq<(ColumnModel, int)> {
    Seq::new(
        before.len() + 1,
        |k: int|
            if k < m {
                before[k]
            } else if k == m {
                (ColumnModel::Single(new), edge)
            } else {
                (before[k - 1].0, before[k - 1].1 + width)
            },
    )
}

/// The leaders of a strip in two parts, between which that of a new column
/// comes.
proof fn lemma_leaders_after_opening(
    columns: Seq<ColumnModel>,
    at: int,
    new: Entity,
    frame: spec_fn(Entity) -> Option<IRect>,
) -> (parts: (Seq<Entity>, Seq<Entity>))
    requires
        0 <= at <= columns.len(),
        frame(new) is Some,
    ensures
        positions::leaders(columns, frame) == parts.0 + parts.1,
        positions::leaders(layout::inserted(columns, at, new), frame) == parts.0 + seq![new]
            + parts.1,
{
    let top = |c: ColumnModel| c.top();
    let shown = positions::has_frame(frame);
    let after = layout::inserted(columns, at, new);
    let left = columns.take(at);
    let right = columns.skip(at);
    let own = seq![ColumnModel::Single(new)];
    assert(columns =~= left + right);
    assert(after =~= left + own + right);
    lemma_filter_map_add(left, right, top);
    lemma_filter_map_add(left + own, right, top);
    lemma_filter_map_add(left, own, top);
    assert(own.filter_map(top) =~= seq![new]) by {
        Seq::lemma_filter_map_singleton(ColumnModel::Single(new), top);
        assert(seq![new][0] == new);
    }
    let a = left.filter_map(top);
    let b = right.filter_map(top);
    assert(layout::tops(columns) == a + b);
    assert(layout::tops(after) == a + seq![new] + b);
    Seq::filter_distributes_over_add(a, b, shown);
    Seq::filter_distributes_over_add(a + seq![new], b, shown);
    Seq::filter_distributes_over_add(a, seq![new], shown);
    assert(seq![new].filter(shown) =~= seq![new]) by {
        assert(seq![new] =~= Seq::empty().push(new));
        Seq::<Entity>::empty().lemma_filter_push(new, shown);
        assert(Seq::<Entity>::empty().filter(shown) =~= Seq::empty()) by {
            reveal(Seq::filter);
        }
    }
    (a.filter(shown), b.filter(shown))
}

/// Opening a window resizes no other. A window that is new to the strip gets a
/// column; every other column keeps its windows, those to its left stay where
/// they are, and those to its right move by the new window's width.
pub proof fn law_opening_moves_columns(
    columns: Seq<ColumnModel>,
    at: int,
    new: Entity,
    frame: spec_fn(Entity) -> Option<IRect>,
)
    requires
        0 <= at <= columns.len(),
        layout::index(columns, new) is None,
        frame(new) is Some,
    ensures
        exists|m: int, edge: int|
            0 <= m <= positions::column_edges(columns, frame).len() && positions::column_edges(
                layout::inserted(columns, at, new),
                frame,
            ) == #[trigger] edges_after_opening(
                positions::column_edges(columns, frame),
                m,
                new,
                edge,
                frame(new)->0.spec_width(),
            ),
{
    let after = layout::inserted(columns, at, new);
    let (fa, fb) = lemma_leaders_after_opening(columns, at, new, frame);
    let old_leaders = positions::leaders(columns, frame);
    let new_leaders = positions::leaders(after, frame);
    assert(old_leaders == fa + fb);
    assert(new_leaders == fa + seq![new] + fb);
    let m = fa.len() as int;
    let edge = positions::total_width(fa, frame);
    let width = frame(new)->0.spec_width();
    let was = positions::column_edges(columns, frame);
    let now = positions::column_edges(after, frame);
    let expected = edges_after_opening(was, m, new, edge, width);
    assert(now =~= expected) by {
        assert forall|k: int| 0 <= k < now.len() implies now[k] == expected[k] by {
            if k < m {
                assert(new_leaders[k] == old_leaders[k]);
                assert(new_leaders.take(k) =~= old_leaders.take(k));
                lemma_leader_is_in_strip(columns, frame, k);
                lemma_index_after_insert(columns, at, new, old_leaders[k]);
            } else if k == m {
                assert(new_leaders[k] == new);
                assert(new_leaders.take(k) =~= fa);
                lemma_new_is_found(columns, at, new);
            } else {
                assert(new_leaders[k] == old_leaders[k - 1]);
                lemma_leader_is_in_strip(columns, frame, k - 1);
                lemma_index_after_insert(columns, at, new, old_leaders[k - 1]);
                let some = fb.take(k - 1 - m);
                assert(old_leaders.take(k - 1) =~= fa + some);
                assert(new_leaders.take(k) =~= fa + seq![new] + some);
                lemma_width_add(fa, some, frame);
                lemma_width_add(fa + seq![new], some, frame);
                lemma_width_add(fa, seq![new], frame);
                assert(seq![new].drop_last() =~= Seq::empty());
                assert(positions::total_width(Seq::empty(), frame) == 0);
                assert(positions::total_width(seq![new], frame) == width);
            }
        }
    }
    assert(0 <= m <= was.len());
}

/// A new window is found in the column that was inserted for it.
proof fn lemma_new_is_found(columns: Seq<ColumnModel>, at: int, new: Entity)
    requires
        0 <= at <= columns.len(),
        layout::index(columns, new) is None,
    ensures
        layout::index(layout::inserted(columns, at, new), new) == Some(at),
        layout::inserted(columns, at, new)[at] == ColumnModel::Single(new),
{
    let after = layout::inserted(columns, at, new);
    search::lemma_first_index_meaning(columns, layout::holder(new));
    assert(after[at] == ColumnModel::Single(new));
    assert(seq![new][0] == new);
    assert(search::is_first(after, layout::holder(new), at)) by {
        assert forall|j: int| 0 <= j < at implies !layout::holder(new)(#[trigger] after[j]) by {
            assert(after[j] == columns[j]);
        }
    }
    search::lemma_first_index(after, layout::holder(new), at);
}

/// A place moved sideways.
pub open spec fn moved(dx: int) -> spec_fn(Placement) -> Placement {
    |p: Placement| Placement { x: p.x + dx, ..p }
}

/// A column that moves sideways moves each of its windows by as much, and
/// resizes none.
pub proof fn law_moving_a_column_resizes_nothing(
    column: ColumnModel,
    x: int,
    dx: int,
    strip_height: int,
    frame: spec_fn(Entity) -> Option<IRect>,
)
    ensures
        positions::column_places((column, x + dx), strip_height, frame)
            == positions::column_places((column, x), strip_height, frame).map_values(moved(dx)),
{
    let windows = column.windows();
    let heights = binpack::packed(
        positions::current_heights(windows, frame),
        positions::MIN_WINDOW_HEIGHT as int,
        strip_height,
    );
    if heights is Some && windows.len() > 0 && frame(windows[0]) is Some {
        lemma_stack_moves(
            windows,
            heights->0,
            frame,
            x,
            dx,
            frame(windows[0])->0.spec_width(),
            0,
        );
    } else {
        assert(positions::column_places((column, x + dx), strip_height, frame)
            =~= positions::column_places((column, x), strip_height, frame).map_values(moved(dx)));
    }
}

proof fn lemma_stack_moves(
    windows: Seq<Entity>,
    heights: Seq<int>,
    frame: spec_fn(Entity) -> Option<IRect>,
    x: int,
    dx: int,
    width: int,
    y: int,
)
    ensures
        positions::stack_places(windows, heights, frame, x + dx, width, y)
            == positions::stack_places(windows, heights, frame, x, width, y).map_values(moved(dx)),
    decreases windows.len(),
{
    let here = positions::stack_places(windows, heights, frame, x, width, y);
    let there = positions::stack_places(windows, heights, frame, x + dx, width, y);
    if windows.len() == 0 || heights.len() == 0 {
        assert(there =~= here.map_values(moved(dx)));
    } else if frame(windows[0]) is Some {
        lemma_stack_moves(
            windows.drop_first(),
            heights.drop_first(),
            frame,
            x,
            dx,
            width,
            y + heights[0],
        );
        assert(there =~= here.map_values(moved(dx)));
    } else {
        lemma_stack_moves(windows.drop_first(), heights.drop_first(), frame, x, dx, width, y);
    }
}

/// Opening a window never causes another to resize: where a window that is new
/// to the strip gets a column, each column that was there has its windows in
/// the same places as before, all of them moved sideways by nothing or by the
/// width of the new window.
pub proof fn law_opening_never_resizes(
    columns: Seq<ColumnModel>,
    at: int,
    new: Entity,
    frame: spec_fn(Entity) -> Option<IRect>,
    strip_height: int,
    k: int,
)
    requires
        0 <= at <= columns.len(),
        layout::index(columns, new) is None,
        frame(new) is Some,
        0 <= k < positions::column_edges(columns, frame).len(),
    ensures
        exists|j: int, dx: int|
            0 <= j < positions::column_edges(layout::inserted(columns, at, new), frame).len() && (dx
                == 0 || dx == frame(new)->0.spec_width()) && positions::column_places(
                #[trigger] positions::column_edges(layout::inserted(columns, at, new), frame)[j],
                strip_height,
                frame,
            ) == positions::column_places(
                positions::column_edges(columns, frame)[k],
                strip_height,
                frame,
            ).map_values(#[trigger] moved(dx)),
{
    law_opening_moves_columns(columns, at, new, frame);
    let was = positions::column_edges(columns, frame);
    let now = positions::column_edges(layout::inserted(columns, at, new), frame);
    let width = frame(new)->0.spec_width();
    let (m, edge) = choose|m: int, edge: int|
        0 <= m <= was.len() && now == #[trigger] edges_after_opening(was, m, new, edge, width);
    let (j, dx) = if k < m {
        (k, 0)
    } else {
        (k + 1, width)
    };
    assert(now[j] == (was[k].0, was[k].1 + dx));
    law_moving_a_column_resizes_nothing(was[k].0, was[k].1, dx, strip_height, frame);
    assert(positions::column_places(now[j], strip_height, frame) == positions::column_places(
        was[k],
        strip_height,
        frame,
    ).map_values(moved(dx)));
}

// ---------------------------------------------------------------------------
// Sharing the height
// ---------------------------------------------------------------------------
/// The sum of some heights.
pub open spec fn sum(heights: Seq<int>) -> int
    decreases heights.len(),
{
    if heights.len() == 0 {
        0
    } else {
        sum(heights.drop_last()) + heights.last()
    }
}

/// What the first windows take is what is missing from the total.
proof fn lemma_taken_sum(heights: Seq<i32>, min: int, total: int, k: int)
    requires
        0 <= k <= heights.len(),
        binpack::left_after(heights, min, total, k) is Some,
    ensures
        sum(Seq::new(k as nat, |i: int| binpack::taken(heights, min, total, i))) == total
            - binpack::left_after(heights, min, total, k)->0,
    decreases k,
{
    if k > 0 {
        binpack::lemma_prefix_found(heights, min, total, k - 1, k);
        lemma_taken_sum(heights, min, total, k - 1);
        let all = Seq::new(k as nat, |i: int| binpack::taken(heights, min, total, i));
        assert(all.drop_last() =~= Seq::new(
            (k - 1) as nat,
            |i: int| binpack::taken(heights, min, total, i),
        ));
    }
}

/// What is left of a total that is not negative is not negative.
pub proof fn lemma_left_is_not_negative(heights: Seq<i32>, min: int, total: int, k: int)
    requires
        0 <= k <= heights.len(),
        total >= 0,
    ensures
        binpack::left_after(heights, min, total, k) matches Some(left) ==> left >= 0,
    decreases k,
{
    if k > 0 {
        lemma_left_is_not_negative(heights, min, total, k - 1);
    }
}

/// Equal heights add up to their product.
proof fn lemma_sum_with_tail(head: Seq<int>, even: int, n: int)
    requires
        head.len() <= n,
    ensures
        sum(
            Seq::new(
                n as nat,
                |i: int|
                    if i < head.len() {
                        head[i]
                    } else {
                        even
                    },
            ),
        ) == sum(head) + even * (n - head.len()),
    decreases n - head.len(),
{
    let all = Seq::new(
        n as nat,
        |i: int|
            if i < head.len() {
                head[i]
            } else {
                even
            },
    );
    if n == head.len() {
        assert(all =~= head);
    } else {
        lemma_sum_with_tail(head, even, n - 1);
        assert(all.drop_last() =~= Seq::new(
            (n - 1) as nat,
            |i: int|
                if i < head.len() {
                    head[i]
                } else {
                    even
                },
        ));
        assert(even * (n - head.len()) == even * (n - 1 - head.len()) + even) by (nonlinear_arith);
    }
}

/// The windows of a column fill the height of the strip: together they are as
/// high as it where all find enough, and otherwise short of it by less than
/// one pixel for each window. Either all of them get a height, or none does.
pub proof fn law_heights_fill_the_strip(heights: Seq<i32>, min: int, total: int)
    requires
        total >= 0,
    ensures
        binpack::packed(heights, min, total) matches Some(out) ==> {
            &&& out.len() == heights.len() || out.len() == 0
            &&& out.len() > 0 ==> total - heights.len() < sum(out) <= total
            &&& out.len() > 0 && binpack::reach(heights, min, total) == heights.len() ==> sum(out)
                == total
        },
{
    let n = heights.len() as int;
    let k = binpack::lemma_has_reach(heights, min, total, 0);
    if n > 0 && k == n {
        let out = binpack::packed(heights, min, total)->0;
        binpack::lemma_prefix_found(heights, min, total, n - 1, n);
        lemma_taken_sum(heights, min, total, n - 1);
        assert(out.drop_last() =~= Seq::new(
            (n - 1) as nat,
            |i: int| binpack::taken(heights, min, total, i),
        ));
    } else if 0 < k < n {
        binpack::lemma_prefix_found(heights, min, total, k - 1, k);
        lemma_taken_sum(heights, min, total, k - 1);
        lemma_left_is_not_negative(heights, min, total, k - 1);
        let left = binpack::left_after(heights, min, total, k - 1)->0;
        let parts = n - (k - 1);
        let even = geometry::quot(left, parts);
        let head = Seq::new((k - 1) as nat, |i: int| binpack::taken(heights, min, total, i));
        if even >= min {
            let out = binpack::packed(heights, min, total)->0;
            lemma_sum_with_tail(head, even, n);
            assert(out =~= Seq::new(
                n as nat,
                |i: int|
                    if i < head.len() {
                        head[i]
                    } else {
                        even
                    },
            ));
            assert(left - parts < even * parts <= left) by (nonlinear_arith)
                requires
                    left >= 0,
                    parts >= 1,
                    even == left / parts,
            ;
        }
    }
}

/// A window that has a column for itself fills the height of the strip, as
/// soon as the strip is higher than it is or at least as high as the least
/// height. Otherwise it gets no place.
pub proof fn law_single_fills_the_height(
    window: Entity,
    x: int,
    strip_height: int,
    frame: spec_fn(Entity) -> Option<IRect>,
)
    requires
        frame(window) is Some,
        frame(window)->0.measurable(),
    ensures
        positions::column_places((ColumnModel::Single(window), x), strip_height, frame) == if frame(
            window,
        )->0.spec_height() < strip_height || strip_height >= positions::MIN_WINDOW_HEIGHT {
            seq![
                Placement {
                    entity: window,
                    x,
                    y: 0,
                    width: frame(window)->0.spec_width(),
                    height: strip_height,
                },
            ]
        } else {
            Seq::empty()
        },
{
    let windows = seq![window];
    let height = positions::frame_height(frame);
    let min = positions::MIN_WINDOW_HEIGHT as int;
    Seq::lemma_filter_map_singleton(window, height);
    let h = frame(window)->0.spec_height() as i32;
    let heights = positions::current_heights(windows, frame);
    assert(heights =~= seq![h]);
    let k = binpack::lemma_has_reach(heights, min, strip_height, 0);
    assert(binpack::left_after(heights, min, strip_height, 0) == Some(strip_height));
    reveal_with_fuel(binpack::left_after, 2);
    assert(min * (heights.len() - 0) == min) by (nonlinear_arith)
        requires
            heights.len() == 1,
    ;
    let packed = binpack::packed(heights, min, strip_height)->0;
    if h < strip_height || strip_height >= min {
        assert(k == 1);
        assert(packed =~= seq![strip_height]);
        assert(windows.drop_first() =~= Seq::empty());
        let rest = positions::stack_places(
            windows.drop_first(),
            packed.drop_first(),
            frame,
            x,
            frame(window)->0.spec_width(),
            strip_height,
        );
        assert(rest =~= Seq::empty());
        assert(positions::column_places((ColumnModel::Single(window), x), strip_height, frame)
            =~= seq![
            Placement {
                entity: window,
                x,
                y: 0,
                width: frame(window)->0.spec_width(),
                height: strip_height,
            },
        ]);
    } else {
        assert(k == 0);
        assert(packed =~= Seq::empty());
    }
}

/// The windows of a stack, all of which have a frame, are below one another
/// without a gap, from the top of the strip on, each with its share of the
/// height and all as wide as the topmost.
pub proof fn law_stack_is_contiguous(
    stack: Seq<Entity>,
    x: int,
    strip_height: int,
    frame: spec_fn(Entity) -> Option<IRect>,
    heights: Seq<int>,
)
    requires
        stack.len() > 0,
        forall|i: int| 0 <= i < stack.len() ==> frame(#[trigger] stack[i]) is Some,
        binpack::packed(
            positions::current_heights(stack, frame),
            positions::MIN_WINDOW_HEIGHT as int,
            strip_height,
        ) == Some(heights),
        heights.len() == stack.len(),
    ensures
        ({
            let places = positions::column_places(
                (ColumnModel::Stack(stack), x),
                strip_height,
                frame,
            );
            &&& places.len() == stack.len()
            &&& forall|i: int|
                0 <= i < places.len() ==> (#[trigger] places[i]) == (Placement {
                    entity: stack[i],
                    x,
                    y: sum(heights.take(i)),
                    width: frame(stack[0])->0.spec_width(),
                    height: heights[i],
                })
        }),
{
    lemma_stack_places(stack, heights, frame, x, frame(stack[0])->0.spec_width(), 0);
}

proof fn lemma_stack_places(
    windows: Seq<Entity>,
    heights: Seq<int>,
    frame: spec_fn(Entity) -> Option<IRect>,
    x: int,
    width: int,
    y: int,
)
    requires
        forall|i: int| 0 <= i < windows.len() ==> frame(#[trigger] windows[i]) is Some,
        heights.len() == windows.len(),
    ensures
        ({
            let places = positions::stack_places(windows, heights, frame, x, width, y);
            &&& places.len() == windows.len()
            &&& forall|i: int|
                0 <= i < places.len() ==> (#[trigger] places[i]) == (Placement {
                    entity: windows[i],
                    x,
                    y: y + sum(heights.take(i)),
                    width,
                    height: heights[i],
                })
        }),
    decreases windows.len(),
{
    if windows.len() > 0 {
        assert(frame(windows[0]) is Some);
        let rest = windows.drop_first();
        let below = heights.drop_first();
        assert forall|i: int| 0 <= i < rest.len() implies frame(#[trigger] rest[i]) is Some by {
            assert(rest[i] == windows[i + 1]);
        }
        lemma_stack_places(rest, below, frame, x, width, y + heights[0]);
        let places = positions::stack_places(windows, heights, frame, x, width, y);
        assert forall|i: int| 0 <= i < places.len() implies (#[trigger] places[i]) == (Placement {
            entity: windows[i],
            x,
            y: y + sum(heights.take(i)),
            width,
            height: heights[i],
        }) by {
            if i == 0 {
                assert(heights.take(0) =~= Seq::empty());
            } else {
                lemma_sum_first(heights.take(i));
                assert(heights.take(i).drop_first() =~= below.take(i - 1));
            }
        }
    }
}

proof fn lemma_sum_first(heights: Seq<int>)
    requires
        heights.len() > 0,
    ensures
        sum(heights) == heights[0] + sum(heights.drop_first()),
    decreases heights.len(),
{
    if heights.len() > 1 {
        lemma_sum_first(heights.drop_last());
        assert(heights.drop_last().drop_first() =~= heights.drop_first().drop_last());
    } else {
        assert(heights.drop_first() =~= Seq::empty());
        assert(heights.drop_last() =~= Seq::empty());
    }
}

} // verus!
