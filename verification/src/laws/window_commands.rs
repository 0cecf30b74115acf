//! What the commands do to the focused window.
use vstd::prelude::*;

use crate::commands;
use crate::commands::{
    Command, DisplayMove, FullWidth, ManageToggle, MouseMove, Operation, ReportedDisplay,
    ReportedStrip,
};
use crate::events::Event;
use crate::geometry::Entity;
use crate::laws::places;
use crate::laws::strips as on_strip;
use crate::layout;
use crate::layout::{ColumnModel, LayoutStrip, WorkspaceId};
use crate::number::Number;
use crate::reconcile::MarkedDisplay;
use crate::search;

verus! {

/// Each event that brings a command adds it at the end, and no other event adds
/// anything.
pub proof fn law_commands_come_in_order(events: Seq<Event>, event: Event)
    ensures
        Seq::<Event>::empty().filter_map(commands::brought()) == Seq::<Command>::empty(),
        events.push(event).filter_map(commands::brought()) == match event {
            Event::Command { command } => events.filter_map(commands::brought()).push(command),
            _ => events.filter_map(commands::brought()),
        },
{
    search::lemma_filter_map_push(events, commands::brought(), event);
}

/// Each operation that passes a test is taken over in order; nothing else is.
pub proof fn law_passing_operations_come_in_order(
    given: Seq<Command>,
    command: Command,
    passes: spec_fn(Operation) -> bool,
)
    ensures
        Seq::<Command>::empty().filter_map(commands::passing(passes)) == Seq::<Operation>::empty(),
        command is Window && passes(command->Window_0) ==> given.push(command).filter_map(
            commands::passing(passes),
        ) == given.filter_map(commands::passing(passes)).push(command->Window_0),
        !(command is Window) || !passes(command->Window_0) ==> given.push(command).filter_map(
            commands::passing(passes),
        ) == given.filter_map(commands::passing(passes)),
{
    search::lemma_filter_map_push(given, commands::passing(passes), command);
}

/// One command to quit is enough, and nothing else is one.
pub proof fn law_one_quit_is_enough(given: Seq<Command>, command: Command)
    ensures
        !commands::asks_to_quit(Seq::empty()),
        commands::asks_to_quit(given.push(command)) <==> commands::asks_to_quit(given) || command
            == Command::Quit,
{
    let all = given.push(command);
    if commands::asks_to_quit(given) {
        let k = choose|k: int| 0 <= k < given.len() && given[k] == Command::Quit;
        assert(all[k] == Command::Quit);
    }
    if command == Command::Quit {
        assert(all[given.len() as int] == Command::Quit);
    }
    if commands::asks_to_quit(all) && command != Command::Quit {
        let k = choose|k: int| 0 <= k < all.len() && all[k] == Command::Quit;
        assert(given[k] == Command::Quit);
    }
}

/// The next width of a window is the first preset above its own; past the last of them
/// the first one comes again. Without presets it is one half.
pub proof fn law_widths_go_round(presets: Seq<Number>, limit: Number, k: int)
    ensures
        0 <= k < presets.len() && limit.below(presets[k]) && (forall|j: int|
            0 <= j < k ==> !limit.below(#[trigger] presets[j])) ==> commands::next_width(
            presets,
            limit,
        ) == presets[k],
        presets.len() > 0 && (forall|j: int|
            0 <= j < presets.len() ==> !limit.below(#[trigger] presets[j]))
            ==> commands::next_width(presets, limit) == presets[0],
        presets.len() == 0 ==> commands::next_width(presets, limit).bits == 0x3FE0_0000_0000_0000,
{
    let f = commands::above(limit);
    if 0 <= k < presets.len() && limit.below(presets[k]) && (forall|j: int|
        0 <= j < k ==> !limit.below(#[trigger] presets[j])) {
        search::lemma_first_index(presets, f, k);
    }
    if forall|j: int| 0 <= j < presets.len() ==> !limit.below(#[trigger] presets[j]) {
        search::lemma_no_first_index(presets, f);
    }
}

/// A window that fills the display remembers its width, and gets that very width back
/// when it is toggled again.
pub proof fn law_full_width_goes_and_comes_back(width: Number, full: Number)
    ensures
        commands::toggled_width(None, width) matches FullWidth::Fill { remember }
            && commands::toggled_width(Some(remember), full) == FullWidth::Restore(width),
{
}

/// The windows of a stack share its height, whichever of them has the focus; a single
/// window shares it with none, and nothing is to be done for a window that is not on the
/// strip.
pub proof fn law_stack_shares_its_height(
    columns: Seq<ColumnModel>,
    entity: Entity,
    i: int,
    p: int,
)
    ensures
        places::only_at(columns, entity, i, p) && columns[i] is Stack ==> commands::sharing_height(
            columns,
            entity,
        ) == Some(columns[i].windows()),
        places::only_at(columns, entity, i, p) && columns[i] is Single ==> commands::sharing_height(
            columns,
            entity,
        ) == Some(Seq::<Entity>::empty()),
        places::is_absent(columns, entity) ==> commands::sharing_height(columns, entity) is None,
{
    if places::only_at(columns, entity, i, p) {
        places::law_window_is_found_where_it_stands(columns, entity, i, p);
    }
    if places::is_absent(columns, entity) {
        places::law_absent_window_is_not_found(columns, entity);
    }
}

/// A window that floats is managed next, and one that is managed floats next; without a
/// focused window nothing is toggled.
pub proof fn law_management_is_toggled(entity: Entity)
    ensures
        commands::toggled_management(Some((entity, true))) == Some(ManageToggle::Manage(entity)),
        commands::toggled_management(Some((entity, false))) == Some(ManageToggle::Float(entity)),
        commands::toggled_management(None) is None,
{
}

/// Stacking the focused window puts it below the windows of the column to its left, and
/// unstacking it gives the strip back as it was.
pub proof fn law_unstacking_undoes_stacking(columns: Seq<ColumnModel>, entity: Entity, i: int)
    requires
        places::only_at(columns, entity, i, 0),
        columns[i] is Single,
        i > 0,
        columns[i - 1].windows().len() > 0,
        columns[i - 1] is Single <==> columns[i - 1].windows().len() == 1,
    ensures
        ({
            let (around, after) = commands::restacked(columns, true, Some((entity, false)));
            &&& around == Some(entity)
            &&& after.len() == columns.len() - 1
            &&& after[i - 1] == ColumnModel::Stack(columns[i - 1].windows().push(entity))
            &&& forall|j: int| 0 <= j < i - 1 ==> #[trigger] after[j] == columns[j]
            &&& forall|j: int| i <= j < after.len() ==> #[trigger] after[j] == columns[j + 1]
            &&& commands::restacked(after, false, Some((entity, false))) == (
                Some(entity),
                columns,
            )
        }),
{
    on_strip::law_stack_joins_the_left_column(columns, entity, i);
    lemma_stacked_back(columns, layout::stacked(columns, entity), entity, i);
}

/// A window that stands below those of a column it has joined stands only there.
proof fn lemma_stands_below(
    columns: Seq<ColumnModel>,
    after: Seq<ColumnModel>,
    entity: Entity,
    i: int,
)
    requires
        places::only_at(columns, entity, i, 0),
        columns[i] is Single,
        i > 0,
        after.len() == columns.len() - 1,
        after[i - 1] == ColumnModel::Stack(columns[i - 1].windows().push(entity)),
        forall|j: int| 0 <= j < i - 1 ==> #[trigger] after[j] == columns[j],
        forall|j: int| i <= j < after.len() ==> #[trigger] after[j] == columns[j + 1],
    ensures
        places::only_at(after, entity, i - 1, columns[i - 1].windows().len() as int),
{
    let left = columns[i - 1].windows();
    let p = left.len() as int;
    assert(after[i - 1].windows() == left.push(entity));
    assert(places::stands_at(after, entity, i - 1, p));
    assert forall|j: int, q: int| #[trigger] places::stands_at(after, entity, j, q) implies j == i
        - 1 && q == p by {
        if j < i - 1 {
            assert(places::stands_at(columns, entity, j, q));
        } else if j == i - 1 {
            if q < p {
                assert(left[q] == entity);
                assert(places::stands_at(columns, entity, i - 1, q));
            }
        } else {
            assert(places::stands_at(columns, entity, j + 1, q));
        }
    }
}

/// Unstacking a window that has just joined a column gives the strip back.
proof fn lemma_stacked_back(
    columns: Seq<ColumnModel>,
    after: Seq<ColumnModel>,
    entity: Entity,
    i: int,
)
    requires
        places::only_at(columns, entity, i, 0),
        columns[i] is Single,
        i > 0,
        columns[i - 1].windows().len() > 0,
        columns[i - 1] is Single <==> columns[i - 1].windows().len() == 1,
        after.len() == columns.len() - 1,
        after[i - 1] == ColumnModel::Stack(columns[i - 1].windows().push(entity)),
        forall|j: int| 0 <= j < i - 1 ==> #[trigger] after[j] == columns[j],
        forall|j: int| i <= j < after.len() ==> #[trigger] after[j] == columns[j + 1],
    ensures
        layout::unstacked(after, entity) == columns,
{
    let left = columns[i - 1].windows();
    let p = left.len() as int;
    lemma_stands_below(columns, after, entity, i);
    on_strip::law_unstack_opens_a_column(after, entity, i - 1, p);
    let back = layout::unstacked(after, entity);
    let joined = left.push(entity);
    assert(after[i - 1].windows() == joined);
    assert(joined.take(p) + joined.skip(p + 1) =~= left);
    lemma_same_column(back[i - 1], columns[i - 1]);
    assert(columns[i] == ColumnModel::Single(entity)) by {
        assert(columns[i].windows()[0] == entity);
    }
    lemma_shifted_back(columns, after, back, i);
}

/// Columns that moved up and then down again are where they were.
proof fn lemma_shifted_back(
    columns: Seq<ColumnModel>,
    after: Seq<ColumnModel>,
    back: Seq<ColumnModel>,
    i: int,
)
    requires
        0 < i < columns.len(),
        after.len() == columns.len() - 1,
        back.len() == columns.len(),
        forall|j: int| 0 <= j < i - 1 ==> #[trigger] after[j] == columns[j],
        forall|j: int| i <= j < after.len() ==> #[trigger] after[j] == columns[j + 1],
        forall|j: int| 0 <= j < i - 1 ==> #[trigger] back[j] == after[j],
        forall|j: int| i < j < back.len() ==> #[trigger] back[j] == after[j - 1],
        back[i - 1] == columns[i - 1],
        back[i] == columns[i],
    ensures
        back == columns,
{
    assert forall|j: int| 0 <= j < columns.len() implies #[trigger] back[j] == columns[j] by {
        if j > i {
            assert(after[j - 1] == columns[j]);
        } else if j < i - 1 {
            assert(after[j] == columns[j]);
        }
    }
    assert(back =~= columns);
}

/// A column is what its windows say, if it is single just for one.
proof fn lemma_same_column(a: ColumnModel, b: ColumnModel)
    requires
        a.windows() == b.windows(),
        a is Single <==> a.windows().len() == 1,
        b is Single <==> b.windows().len() == 1,
    ensures
        a == b,
{
    match (a, b) {
        (ColumnModel::Single(x), ColumnModel::Single(y)) => {
            assert(a.windows()[0] == x);
            assert(b.windows()[0] == y);
        },
        (ColumnModel::Stack(x), ColumnModel::Stack(y)) => {
            assert(a.windows() == x);
            assert(b.windows() == y);
        },
        _ => {},
    }
}

/// A window that is not managed is neither stacked nor unstacked.
pub proof fn law_floating_window_is_not_stacked(
    columns: Seq<ColumnModel>,
    entity: Entity,
    stack: bool,
)
    ensures
        commands::restacked(columns, stack, Some((entity, true))) == (None::<Entity>, columns),
        commands::restacked(columns, stack, None) == (None::<Entity>, columns),
{
}

/// The focused window leaves its strip for the other display; what stands to the right
/// of it there is what the rest is laid out around.
pub proof fn law_window_leaves_for_the_display(
    columns: Seq<ColumnModel>,
    entity: Entity,
    display: u32,
    i: int,
)
    requires
        places::only_at(columns, entity, i, 0),
        columns[i] is Single,
        places::all_filled(columns),
    ensures
        ({
            let (change, after) = commands::sent_off(
                columns,
                Some((entity, false)),
                Some(display),
            );
            &&& change is Some
            &&& change->0.entity == entity
            &&& change->0.display == display
            &&& change->0.neighbour == if i + 1 < columns.len() {
                Some(columns[i + 1].windows()[0])
            } else {
                None
            }
            &&& after == columns.take(i) + columns.skip(i + 1)
        }),
        commands::sent_off(columns, Some((entity, true)), Some(display)) == (
            None::<DisplayMove>,
            columns,
        ),
        commands::sent_off(columns, Some((entity, false)), None) == (
            None::<DisplayMove>,
            columns,
        ),
{
    places::law_window_is_found_where_it_stands(columns, entity, i, 0);
    on_strip::law_removing_a_single_closes_the_gap(columns, entity, i);
    if i + 1 < columns.len() {
        assert(columns[i + 1].windows().len() > 0);
    }
    assert(layout::removed(columns, entity) =~= columns.take(i) + columns.skip(i + 1));
}

/// The mouse goes to the first display that is not the active one, if a command says so.
pub proof fn law_mouse_goes_to_another_display(
    given: Seq<Command>,
    displays: Seq<MarkedDisplay>,
    k: int,
)
    requires
        0 <= k < displays.len(),
        !displays[k].active,
        forall|j: int| 0 <= j < k ==> (#[trigger] displays[j]).active,
    ensures
        commands::mouse_display(given, displays) == if given.contains(
            Command::Mouse(MouseMove::ToNextDisplay),
        ) {
            Some(displays[k])
        } else {
            None
        },
{
    search::lemma_first_index(displays, commands::is_elsewhere(), k);
}

/// The window that the mouse goes to is on the strip of the space, and none there shows
/// more of itself.
pub proof fn law_mouse_goes_to_the_widest(
    space: WorkspaceId,
    strips: Seq<LayoutStrip>,
    widths: Seq<(Entity, Number)>,
    s: int,
    entity: Entity,
    k: int,
)
    requires
        0 <= s < strips.len(),
        strips[s].spec_id() == space,
        forall|t: int| 0 <= t < s ==> (#[trigger] strips[t]).spec_id() != space,
        layout::all_windows(strips[s]@).contains(entity),
        0 <= k < widths.len(),
        widths[k].0 == entity,
        forall|j: int| 0 <= j < k ==> (#[trigger] widths[j]).0 != entity,
        forall|j: int| 0 <= j < widths.len() ==> !(#[trigger] widths[j]).1.is_nan(),
    ensures
        ({
            let window = commands::mouse_window(space, strips, widths);
            &&& window is Some
            &&& layout::all_windows(strips[s]@).contains((window->0).0)
            &&& widths.contains(window->0)
            &&& widths[k].1.at_most((window->0).1)
        }),
{
    search::lemma_first_index(strips, commands::is_of_space(space), s);
    let all = layout::all_windows(strips[s]@);
    let f = commands::shown_width(widths);
    let shown = all.filter_map(f);
    let at = choose|at: int| 0 <= at < all.len() && all[at] == entity;
    search::lemma_first_index(widths, commands::is_width_of(entity), k);
    let place = search::lemma_filter_map_to(all, f, at);
    assert forall|j: int| 0 <= j < shown.len() implies !(#[trigger] shown[j]).1.is_nan() by {
        let i = search::lemma_filter_map_from(all, f, j);
        search::lemma_first_index_meaning(widths, commands::is_width_of(all[i]));
    }
    commands::law_widest_shows_most(shown, place);
    let best = commands::widest(shown)->0;
    let j = choose|j: int| 0 <= j < shown.len() && shown[j] == best;
    let i = search::lemma_filter_map_from(all, f, j);
    search::lemma_first_index_meaning(widths, commands::is_width_of(all[i]));
    let found = search::first_index(widths, commands::is_width_of(all[i]))->0;
    assert(widths[found] == best);
    assert(all[i] == best.0);
}

/// What is reported of a strip is reported for the display that it is on: its space, and
/// those of its windows that are known, in order.
pub proof fn law_strip_is_reported_with_its_display(
    strips: Seq<ReportedStrip>,
    strip: ReportedStrip,
    display: ReportedDisplay,
    known: Seq<Entity>,
    entity: Entity,
)
    ensures
        ({
            let reports = commands::display_report(strips, known)(display);
            let more = commands::display_report(strips.push(strip), known)(display);
            let n = reports.len() as int;
            &&& strip.parent != display.entity ==> more == reports
            &&& strip.parent == display.entity ==> {
                &&& more.len() == n + 1
                &&& forall|j: int| 0 <= j < n ==> #[trigger] more[j] == reports[j]
                &&& more[n].display_id == display.id
                &&& more[n].active == display.active
                &&& more[n].workspace == strip.strip.spec_id()
                &&& more[n].windows.contains(entity) <==> layout::all_windows(
                    strip.strip@,
                ).contains(entity) && known.contains(entity)
            }
        }),
{
    search::lemma_filter_map_push(strips, commands::strip_report(display, known), strip);
    search::lemma_filtered(
        layout::all_windows(strip.strip@),
        commands::is_known(known),
        entity,
    );
}

} // verus!
