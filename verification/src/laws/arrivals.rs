//! Where new windows go, and who has the focus then.
use vstd::prelude::*;

use crate::geometry::Entity;
use crate::laws::places;
use crate::laws::strips as on_strip;
use crate::layout;
use crate::layout::ColumnModel;
use crate::search;
use crate::triggers::managing;
use crate::triggers::managing::VirtualModel;
use crate::triggers::messages;
use crate::triggers::messages::{NewFocus, Newcomer};
use crate::triggers::{Unmanaged, WindowDisposition};

verus! {

/// The first strip that is shown.
pub open spec fn is_first_shown(strips: Seq<VirtualModel>, s: int) -> bool {
    &&& 0 <= s < strips.len()
    &&& strips[s].active
    &&& forall|t: int| 0 <= t < s ==> !(#[trigger] strips[t]).active
}

/// The window is on no strip.
pub open spec fn is_nowhere(strips: Seq<VirtualModel>, entity: Entity) -> bool {
    forall|t: int|
        0 <= t < strips.len() ==> places::is_absent((#[trigger] strips[t]).columns, entity)
}

/// A window has a column of its own at an index: the columns before it are as they were,
/// and those behind it have moved by one.
pub open spec fn has_joined(
    before: Seq<ColumnModel>,
    after: Seq<ColumnModel>,
    entity: Entity,
    at: int,
) -> bool {
    &&& after.len() == before.len() + 1
    &&& 0 <= at < after.len()
    &&& after[at] == ColumnModel::Single(entity)
    &&& forall|j: int| 0 <= j < at ==> #[trigger] after[j] == before[j]
    &&& forall|j: int| at < j < after.len() ==> #[trigger] after[j] == before[j - 1]
}

/// Strips that differ in the columns of one of them only.
pub open spec fn differ_at(before: Seq<VirtualModel>, after: Seq<VirtualModel>, s: int) -> bool {
    &&& after.len() == before.len()
    &&& 0 <= s < before.len()
    &&& after[s].id == before[s].id
    &&& after[s].virtual_index == before[s].virtual_index
    &&& after[s].active == before[s].active
    &&& forall|t: int| 0 <= t < before.len() && t != s ==> #[trigger] after[t] == before[t]
}

/// The window is laid out as any other: no tab, and not put where it was before.
pub open spec fn is_plain(window: Newcomer) -> bool {
    &&& window.disposition == WindowDisposition::Managed
    &&& !window.tabbed
    &&& !window.restoring
}

/// What is found where a window is on no strip.
proof fn lemma_nowhere(strips: Seq<VirtualModel>, entity: Entity, s: int)
    requires
        is_first_shown(strips, s),
        is_nowhere(strips, entity),
    ensures
        search::first_index(strips, managing::strip_with(entity)) is None,
        search::first_index(strips, managing::is_shown()) == Some(s),
{
    let f = managing::strip_with(entity);
    assert forall|t: int| 0 <= t < strips.len() implies !f(#[trigger] strips[t]) by {
        places::law_absent_window_is_not_found(strips[t].columns, entity);
    }
    search::lemma_no_first_index(strips, f);
    search::lemma_first_index(strips, managing::is_shown(), s);
}

/// A new window that no rule places, where the strip that is shown holds the focused
/// window in some column, is a column of its own just right of that one: the columns up
/// to it keep their index, and those after it move by one.
pub proof fn law_new_window_goes_right_of_the_focused(
    strips: Seq<VirtualModel>,
    window: Newcomer,
    focused: Entity,
    s: int,
    i: int,
    p: int,
)
    requires
        is_plain(window),
        window.insertion is None,
        is_first_shown(strips, s),
        is_nowhere(strips, window.entity),
        places::only_at(strips[s].columns, focused, i, p),
    ensures
        ({
            let after = messages::after_welcome(strips, window, Some(focused));
            &&& differ_at(strips, after, s)
            &&& has_joined(strips[s].columns, after[s].columns, window.entity, i + 1)
        }),
{
    lemma_nowhere(strips, window.entity, s);
    places::law_window_is_found_where_it_stands(strips[s].columns, focused, i, p);
}

/// A new window that no rule places goes to the end of the strip that is shown, where
/// nothing on that strip has the focus.
pub proof fn law_new_window_goes_to_the_end(
    strips: Seq<VirtualModel>,
    window: Newcomer,
    focused: Option<Entity>,
    s: int,
)
    requires
        is_plain(window),
        window.insertion is None,
        is_first_shown(strips, s),
        is_nowhere(strips, window.entity),
        focused is Some ==> places::is_absent(strips[s].columns, focused->0),
    ensures
        ({
            let after = messages::after_welcome(strips, window, focused);
            &&& differ_at(strips, after, s)
            &&& after[s].columns == strips[s].columns.push(ColumnModel::Single(window.entity))
        }),
{
    lemma_nowhere(strips, window.entity, s);
    if focused is Some {
        places::law_absent_window_is_not_found(strips[s].columns, focused->0);
    }
}

/// A new window goes to the column where a rule puts it, or to the end where the strip
/// is shorter.
pub proof fn law_new_window_goes_where_a_rule_says(
    strips: Seq<VirtualModel>,
    window: Newcomer,
    focused: Option<Entity>,
    s: int,
)
    requires
        is_plain(window),
        window.insertion is Some,
        is_first_shown(strips, s),
        is_nowhere(strips, window.entity),
    ensures
        ({
            let after = messages::after_welcome(strips, window, focused);
            let len = strips[s].columns.len() as int;
            let at = if window.insertion->0 < len {
                window.insertion->0 as int
            } else {
                len
            };
            &&& differ_at(strips, after, s)
            &&& has_joined(strips[s].columns, after[s].columns, window.entity, at)
        }),
{
    lemma_nowhere(strips, window.entity, s);
}

/// A new window stays where it has a place already, on a strip, as a tab or elsewhere
/// from the last session.
pub proof fn law_placed_window_stays(
    strips: Seq<VirtualModel>,
    window: Newcomer,
    focused: Option<Entity>,
    s: int,
    i: int,
    p: int,
)
    requires
        window.disposition == WindowDisposition::Managed,
        window.tabbed || window.restoring || 0 <= s < strips.len() && places::stands_at(
            strips[s].columns,
            window.entity,
            i,
            p,
        ),
    ensures
        messages::after_welcome(strips, window, focused) == strips,
{
    if !window.tabbed && !window.restoring {
        let columns = strips[s].columns;
        let f = layout::holder(window.entity);
        assert(columns[i].windows().contains(window.entity));
        search::lemma_some_first_index(columns, f, i);
        search::lemma_some_first_index(strips, managing::strip_with(window.entity), s);
    }
}

/// A window that is not laid out is on the strip no more that held it.
pub proof fn law_unmanaged_newcomer_leaves_its_strip(
    strips: Seq<VirtualModel>,
    window: Newcomer,
    focused: Option<Entity>,
    s: int,
    i: int,
)
    requires
        window.disposition != WindowDisposition::Managed,
        !window.tabbed,
        0 <= s < strips.len(),
        places::only_at(strips[s].columns, window.entity, i, 0),
        strips[s].columns[i] is Single,
        forall|t: int|
            0 <= t < s ==> places::is_absent((#[trigger] strips[t]).columns, window.entity),
    ensures
        ({
            let after = messages::after_welcome(strips, window, focused);
            let columns = strips[s].columns;
            &&& differ_at(strips, after, s)
            &&& after[s].columns == columns.take(i) + columns.skip(i + 1)
        }),
{
    let columns = strips[s].columns;
    let f = managing::strip_with(window.entity);
    places::law_window_is_found_where_it_stands(columns, window.entity, i, 0);
    assert forall|t: int| 0 <= t < s implies !f(#[trigger] strips[t]) by {
        places::law_absent_window_is_not_found(strips[t].columns, window.entity);
    }
    search::lemma_first_index(strips, f, s);
    on_strip::law_removing_a_single_closes_the_gap(columns, window.entity, i);
    assert(layout::removed(columns, window.entity) =~= columns.take(i) + columns.skip(i + 1));
}

/// A new window takes the focus unless a rule says that it does not: a window that is
/// laid out then leaves it to the one that had it. Nothing changes while windows are
/// first gathered.
pub proof fn law_new_window_takes_the_focus(window: Newcomer, focused: Option<Entity>)
    requires
        !window.tabbed,
        !(window.restoring && window.disposition == WindowDisposition::Managed),
    ensures
        messages::welcome(window, focused, true).focus == NewFocus::Unchanged,
        !window.dont_focus ==> messages::welcome(window, focused, false).focus
            == NewFocus::Announce,
        window.dont_focus && focused is Some && window.disposition == WindowDisposition::Managed
            ==> messages::welcome(window, focused, false).focus == NewFocus::Keep(focused->0),
        window.dont_focus && window.disposition != WindowDisposition::Managed ==> messages::welcome(
            window,
            focused,
            false,
        ).focus == NewFocus::Unchanged,
{
}

/// A window is marked as what it is, and only one that is laid out is observed.
pub proof fn law_newcomer_is_marked(
    window: Newcomer,
    focused: Option<Entity>,
    initializing: bool,
)
    requires
        !window.tabbed,
    ensures
        ({
            let next = messages::welcome(window, focused, initializing);
            &&& window.disposition == WindowDisposition::Managed ==> next.mark is None
                && next.observe
            &&& window.disposition == WindowDisposition::Floating ==> next.mark == Some(
                Unmanaged::Floating,
            ) && !next.observe
            &&& window.disposition == WindowDisposition::Passthrough ==> next.mark == Some(
                Unmanaged::Passthrough,
            ) && !next.observe
        }),
{
}

} // verus!
