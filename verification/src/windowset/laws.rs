//! What holds of every layout: no transform loses or doubles a window, and
//! the order of a workspace is a circle.
use vstd::prelude::*;

use crate::search;
use crate::windowset;
use crate::windowset::edit;
use crate::windowset::{
    ColumnView, DisplayView, WinID, WindowRec, WindowSetView, WorkspaceView,
};

verus! {

/// One for a window with this id, nothing for another.
pub open spec fn one_if(id: WinID) -> spec_fn(WindowRec) -> nat {
    |w: WindowRec|
        if w.id == id {
            1
        } else {
            0
        }
}

/// How many windows of a column have this id.
pub open spec fn column_count(id: WinID) -> spec_fn(ColumnView) -> nat {
    |c: ColumnView| search::sum_by(c.windows, one_if(id))
}

/// How many windows of a workspace have this id.
pub open spec fn workspace_count(id: WinID) -> spec_fn(WorkspaceView) -> nat {
    |w: WorkspaceView|
        search::sum_by(w.columns, column_count(id)) + search::sum_by(w.floating, one_if(id))
}

/// How many windows of a display have this id.
pub open spec fn display_count(id: WinID) -> spec_fn(DisplayView) -> nat {
    |d: DisplayView| search::sum_by(d.workspaces, workspace_count(id))
}

/// How many windows of the layout have this id.
pub open spec fn count(displays: Seq<DisplayView>, id: WinID) -> nat {
    search::sum_by(displays, display_count(id))
}

/// Two layouts have the same windows: each id occurs as often in one as in
/// the other.
pub open spec fn same_windows(a: Seq<DisplayView>, b: Seq<DisplayView>) -> bool {
    forall|id: WinID| count(a, id) == #[trigger] count(b, id)
}

/// Taking a window out of a workspace that holds it takes exactly that one.
proof fn lemma_without_count(workspace: WorkspaceView, id: WinID, x: WinID)
    requires
        workspace.holds(id),
    ensures
        workspace.taken(id).id == id,
        workspace_count(x)(workspace.without(id)) + one_if(x)(workspace.taken(id))
            == workspace_count(x)(workspace),
{
    search::lemma_first_index_meaning(workspace.columns, |c: ColumnView| c.holds(id));
    match workspace.column_of(id) {
        Some(c) => {
            let column = workspace.columns[c];
            assert(column.holds(id));
            let k = choose|k: int| 0 <= k < column.windows.len() && (#[trigger] column.windows[k]).id
                == id;
            search::lemma_some_first_index(column.windows, windowset::has_id(id), k);
            let at = search::first_index(column.windows, windowset::has_id(id))->0;
            search::lemma_sum_remove(column.windows, one_if(x), at);
            if column.windows.len() == 1 {
                assert(column.windows.remove(at) =~= Seq::empty());
                search::lemma_sum_remove(workspace.columns, column_count(x), c);
            } else {
                search::lemma_sum_update(
                    workspace.columns,
                    column_count(x),
                    c,
                    column.without(at),
                );
            }
        },
        None => {
            if workspace.tiles(id) {
                let c = choose|c: int|
                    0 <= c < workspace.columns.len() && (#[trigger] workspace.columns[c]).holds(id);
                assert(false);
            }
            let k = choose|k: int|
                0 <= k < workspace.floating.len() && (#[trigger] workspace.floating[k]).id == id;
            search::lemma_some_first_index(workspace.floating, windowset::has_id(id), k);
            let at = search::first_index(workspace.floating, windowset::has_id(id))->0;
            search::lemma_sum_remove(workspace.floating, one_if(x), at);
        },
    }
}

/// Replacing a workspace exchanges its windows for the other's.
proof fn lemma_with_workspace_count(
    displays: Seq<DisplayView>,
    d: int,
    w: int,
    workspace: WorkspaceView,
    x: WinID,
)
    requires
        0 <= d < displays.len(),
        0 <= w < displays[d].workspaces.len(),
    ensures
        count(edit::with_workspace(displays, d, w, workspace), x) + workspace_count(x)(
            displays[d].workspaces[w],
        ) == count(displays, x) + workspace_count(x)(workspace),
{
    search::lemma_sum_update(displays[d].workspaces, workspace_count(x), w, workspace);
    search::lemma_sum_update(
        displays,
        display_count(x),
        d,
        DisplayView { workspaces: displays[d].workspaces.update(w, workspace), ..displays[d] },
    );
}

/// A window that is taken out of a layout is the one asked for, and it alone
/// is missing from what is left.
pub proof fn law_take_takes_one(displays: Seq<DisplayView>, id: WinID)
    ensures
        edit::take_window(displays, id) matches Some((record, rest)) ==> {
            &&& record.id == id
            &&& forall|x: WinID| #[trigger] count(rest, x) + one_if(x)(record) == count(displays, x)
        },
        edit::take_window(displays, id) is None ==> count(displays, id) == 0,
{
    edit::lemma_find_workspace(displays, edit::holder(id));
    match edit::find_workspace(displays, edit::holder(id)) {
        Some((d, w)) => {
            let workspace = displays[d].workspaces[w];
            lemma_without_count(workspace, id, id);
            let rest = edit::with_workspace(displays, d, w, workspace.without(id));
            assert forall|x: WinID| #[trigger]
                count(rest, x) + one_if(x)(workspace.taken(id))
                    == count(displays, x) by {
                lemma_without_count(workspace, id, x);
                lemma_with_workspace_count(displays, d, w, workspace.without(id), x);
            }
        },
        None => {
            if count(displays, id) > 0 {
                let d = search::lemma_sum_positive(displays, display_count(id));
                let w = search::lemma_sum_positive(displays[d].workspaces, workspace_count(id));
                let workspace = displays[d].workspaces[w];
                if search::sum_by(workspace.columns, column_count(id)) > 0 {
                    let c = search::lemma_sum_positive(workspace.columns, column_count(id));
                    let i = search::lemma_sum_positive(workspace.columns[c].windows, one_if(id));
                    assert(workspace.columns[c].windows[i].id == id);
                    assert(workspace.columns[c].holds(id));
                    assert(workspace.tiles(id));
                } else {
                    let i = search::lemma_sum_positive(workspace.floating, one_if(id));
                    assert(workspace.floating[i].id == id);
                }
                assert(edit::holder(id)(displays[d].workspaces[w]));
                assert(false);
            }
        },
    }
}

/// Where a layout is changed at one workspace, and `p` does not tell the new
/// one from the old, `p` finds a workspace exactly where it did.
proof fn lemma_find_elsewhere(
    displays: Seq<DisplayView>,
    d: int,
    w: int,
    workspace: WorkspaceView,
    p: spec_fn(WorkspaceView) -> bool,
)
    requires
        0 <= d < displays.len(),
        0 <= w < displays[d].workspaces.len(),
        p(workspace) || !p(displays[d].workspaces[w]),
        edit::find_workspace(displays, p) is Some,
    ensures
        edit::find_workspace(edit::with_workspace(displays, d, w, workspace), p) is Some,
{
    let changed = edit::with_workspace(displays, d, w, workspace);
    edit::lemma_find_workspace(displays, p);
    edit::lemma_find_workspace(changed, p);
    let (e, v) = edit::find_workspace(displays, p)->0;
    assert(p(displays[e].workspaces[v]));
    if edit::find_workspace(changed, p) is None {
        assert(changed[e].workspaces.len() == displays[e].workspaces.len());
        assert(!p(changed[e].workspaces[v]));
    }
}

/// Giving a window a column adds that window, where there is a workspace for it.
proof fn lemma_given_column_count(
    displays: Seq<DisplayView>,
    p: spec_fn(WorkspaceView) -> bool,
    record: WindowRec,
    x: WinID,
)
    requires
        edit::find_workspace(displays, p) is Some,
    ensures
        count(windowset::given_column(displays, p, record), x) == count(displays, x) + one_if(x)(
            record,
        ),
{
    edit::lemma_find_workspace(displays, p);
    let (d, w) = edit::find_workspace(displays, p)->0;
    let target = displays[d].workspaces[w];
    let column = ColumnView::single(record, crate::number::Number { bits: 0x3FE0_0000_0000_0000 });
    let grown = WorkspaceView { columns: target.columns.push(column), ..target };
    lemma_with_workspace_count(displays, d, w, grown, x);
    search::lemma_sum_push(target.columns, column_count(x), column);
    assert(column.windows =~= Seq::empty().push(record));
    search::lemma_sum_push(Seq::empty(), one_if(x), record);
}

/// The workspace that a window is taken from keeps its number and is shown as
/// before.
proof fn lemma_take_keeps_places(
    displays: Seq<DisplayView>,
    window: WinID,
    p: spec_fn(WorkspaceView) -> bool,
)
    requires
        edit::find_workspace(displays, p) is Some,
        forall|a: WorkspaceView, b: WorkspaceView|
            a.number == b.number && a.active == b.active ==> (#[trigger] p(a) == #[trigger] p(b)),
    ensures
        edit::take_window(displays, window) matches Some((record, rest)) ==> edit::find_workspace(
            rest,
            p,
        ) is Some,
{
    edit::lemma_find_workspace(displays, edit::holder(window));
    match edit::find_workspace(displays, edit::holder(window)) {
        Some((d, w)) => {
            let workspace = displays[d].workspaces[w];
            assert(p(workspace) == p(workspace.without(window)));
            lemma_find_elsewhere(displays, d, w, workspace.without(window), p);
        },
        None => {},
    }
}

/// Sending a window to a workspace that exists loses and doubles no window.
pub proof fn law_shift_keeps_windows(displays: Seq<DisplayView>, window: WinID, number: u32)
    requires
        edit::find_workspace(displays, windowset::numbered(number)) is Some,
    ensures
        same_windows(displays, windowset::shifted(displays, window, number)),
{
    law_take_takes_one(displays, window);
    lemma_take_keeps_places(displays, window, windowset::numbered(number));
    match edit::take_window(displays, window) {
        Some((record, rest)) => {
            assert forall|x: WinID|
                count(displays, x) == #[trigger] count(
                    windowset::shifted(displays, window, number),
                    x,
                ) by {
                assert(count(rest, x) + one_if(x)(record) == count(displays, x));
                lemma_given_column_count(rest, windowset::numbered(number), record, x);
            }
        },
        None => {},
    }
}

/// Giving a window a column of its own loses and doubles no window, where some
/// workspace is shown.
pub proof fn law_unstack_keeps_windows(displays: Seq<DisplayView>, window: WinID)
    requires
        edit::find_workspace(displays, windowset::shown()) is Some,
    ensures
        same_windows(displays, windowset::unstacked(displays, window)),
{
    law_take_takes_one(displays, window);
    lemma_take_keeps_places(displays, window, windowset::shown());
    match edit::take_window(displays, window) {
        Some((record, rest)) => {
            assert forall|x: WinID|
                count(displays, x) == #[trigger] count(
                    windowset::unstacked(displays, window),
                    x,
                ) by {
                assert(count(rest, x) + one_if(x)(record) == count(displays, x));
                lemma_given_column_count(rest, windowset::shown(), record, x);
            }
        },
        None => {},
    }
}

/// Floating or sinking a window loses and doubles no window, where some
/// workspace is shown.
pub proof fn law_float_keeps_windows(displays: Seq<DisplayView>, window: WinID, floating: bool)
    requires
        edit::find_workspace(displays, windowset::shown()) is Some,
    ensures
        same_windows(displays, windowset::refloated(displays, window, floating)),
{
    law_take_takes_one(displays, window);
    lemma_take_keeps_places(displays, window, windowset::shown());
    match edit::take_window(displays, window) {
        Some((taken, rest)) => {
            let record = WindowRec { floating, ..taken };
            edit::lemma_find_workspace(rest, windowset::shown());
            assert forall|x: WinID|
                count(displays, x) == #[trigger] count(
                    windowset::refloated(displays, window, floating),
                    x,
                ) by {
                assert(count(rest, x) + one_if(x)(taken) == count(displays, x));
                if floating {
                    let (d, w) = edit::find_workspace(rest, windowset::shown())->0;
                    let target = rest[d].workspaces[w];
                    let grown = WorkspaceView { floating: target.floating.push(record), ..target };
                    lemma_with_workspace_count(rest, d, w, grown, x);
                    search::lemma_sum_push(target.floating, one_if(x), record);
                } else {
                    lemma_given_column_count(rest, windowset::shown(), record, x);
                }
            }
        },
        None => {},
    }
}

/// A workspace that tiles a window still does once another has left it.
proof fn lemma_without_other(workspace: WorkspaceView, window: WinID, onto: WinID)
    requires
        workspace.holds(window),
        workspace.tiles(onto),
        window != onto,
    ensures
        workspace.without(window).tiles(onto),
{
    let e = choose|e: int|
        0 <= e < workspace.columns.len() && (#[trigger] workspace.columns[e]).holds(onto);
    let i = choose|i: int|
        0 <= i < workspace.columns[e].windows.len() && (#[trigger] workspace.columns[e].windows[i]).id
            == onto;
    let after = workspace.without(window);
    search::lemma_first_index_meaning(workspace.columns, |c: ColumnView| c.holds(window));
    match workspace.column_of(window) {
        Some(c) => {
            let column = workspace.columns[c];
            let k = choose|k: int| 0 <= k < column.windows.len() && (#[trigger] column.windows[k]).id
                == window;
            search::lemma_some_first_index(column.windows, windowset::has_id(window), k);
            let at = search::first_index(column.windows, windowset::has_id(window))->0;
            if c == e {
                assert(at != i);
                assert(column.windows.len() >= 2);
                let left = column.windows.remove(at);
                let j = if i < at {
                    i
                } else {
                    i - 1
                };
                assert(left[j].id == onto);
                assert(after.columns[c].windows[j].id == onto);
                assert(after.columns[c].holds(onto));
            } else {
                let f = if column.windows.len() == 1 && c < e {
                    e - 1
                } else {
                    e
                };
                assert(after.columns[f] == workspace.columns[e]);
                assert(after.columns[f].holds(onto));
            }
        },
        None => {
            assert(after.columns[e].holds(onto));
        },
    }
}

/// Putting a window into the column of another, tiled one loses and doubles no
/// window.
pub proof fn law_stack_keeps_windows(
    displays: Seq<DisplayView>,
    window: WinID,
    onto: WinID,
    tabs: bool,
)
    requires
        window != onto,
        edit::find_workspace(displays, windowset::tiler(onto)) is Some,
    ensures
        same_windows(displays, windowset::stacked(displays, window, onto, tabs)),
{
    law_take_takes_one(displays, window);
    edit::lemma_find_workspace(displays, edit::holder(window));
    match edit::find_workspace(displays, edit::holder(window)) {
        Some((d, w)) => {
            let workspace = displays[d].workspaces[w];
            let (record, rest) = edit::take_window(displays, window)->0;
            if workspace.tiles(onto) {
                lemma_without_other(workspace, window, onto);
            }
            lemma_find_elsewhere(
                displays,
                d,
                w,
                workspace.without(window),
                windowset::tiler(onto),
            );
            edit::lemma_find_workspace(rest, windowset::tiler(onto));
            let (e, v) = edit::find_workspace(rest, windowset::tiler(onto))->0;
            let target = rest[e].workspaces[v];
            assert(target.tiles(onto));
            let k = choose|k: int|
                0 <= k < target.columns.len() && (#[trigger] target.columns[k]).holds(onto);
            search::lemma_some_first_index(target.columns, |c: ColumnView| c.holds(onto), k);
            let c = target.column_of(onto)->0;
            let grown_column = ColumnView {
                kind: if tabs {
                    windowset::ColumnKind::Tabs
                } else {
                    windowset::ColumnKind::Stack
                },
                windows: target.columns[c].windows.push(record),
                ..target.columns[c]
            };
            let grown = WorkspaceView { columns: target.columns.update(c, grown_column), ..target };
            assert forall|x: WinID|
                count(displays, x) == #[trigger] count(
                    windowset::stacked(displays, window, onto, tabs),
                    x,
                ) by {
                assert(count(rest, x) + one_if(x)(record) == count(displays, x));
                lemma_with_workspace_count(rest, e, v, grown, x);
                search::lemma_sum_push(target.columns[c].windows, one_if(x), record);
                search::lemma_sum_update(target.columns, column_count(x), c, grown_column);
            }
        },
        None => {},
    }
}

/// A change to every window changes the count of an id to that of another,
/// where it turns exactly the windows with the one into windows with the other.
proof fn lemma_map_count(
    displays: Seq<DisplayView>,
    f: spec_fn(WindowRec) -> WindowRec,
    x: WinID,
    y: WinID,
)
    requires
        forall|r: WindowRec| (#[trigger] f(r)).id == x <==> r.id == y,
    ensures
        count(edit::map_windows(displays, f), x) == count(displays, y),
{
    let after = edit::map_windows(displays, f);
    assert forall|d: int| 0 <= d < displays.len() implies display_count(x)(#[trigger] after[d])
        == display_count(y)(displays[d]) by {
        let new = after[d].workspaces;
        let was = displays[d].workspaces;
        assert forall|w: int| 0 <= w < was.len() implies workspace_count(x)(#[trigger] new[w])
            == workspace_count(y)(was[w]) by {
            assert forall|c: int| 0 <= c < was[w].columns.len() implies column_count(x)(
                #[trigger] new[w].columns[c],
            ) == column_count(y)(was[w].columns[c]) by {
                search::lemma_sum_same(
                    new[w].columns[c].windows,
                    one_if(x),
                    was[w].columns[c].windows,
                    one_if(y),
                );
            }
            search::lemma_sum_same(
                new[w].columns,
                column_count(x),
                was[w].columns,
                column_count(y),
            );
            search::lemma_sum_same(new[w].floating, one_if(x), was[w].floating, one_if(y));
        }
        search::lemma_sum_same(new, workspace_count(x), was, workspace_count(y));
    }
    search::lemma_sum_same(after, display_count(x), displays, display_count(y));
}

/// Focusing a window, or managing one, loses and doubles no window.
pub proof fn law_marking_keeps_windows(displays: Seq<DisplayView>, window: WinID, managed: bool)
    ensures
        same_windows(displays, edit::map_windows(displays, windowset::refocused(window))),
        same_windows(displays, edit::map_windows(displays, windowset::remanaged(window, managed))),
{
    assert forall|x: WinID|
        count(displays, x) == #[trigger] count(
            edit::map_windows(displays, windowset::refocused(window)),
            x,
        ) by {
        lemma_map_count(displays, windowset::refocused(window), x, x);
    }
    assert forall|x: WinID|
        count(displays, x) == #[trigger] count(
            edit::map_windows(displays, windowset::remanaged(window, managed)),
            x,
        ) by {
        lemma_map_count(displays, windowset::remanaged(window, managed), x, x);
    }
}

/// Swapping two windows that are both there puts each where the other was, and
/// leaves every other window alone; swapping with one missing changes nothing.
pub proof fn law_swap_exchanges_windows(displays: Seq<DisplayView>, first: WinID, second: WinID)
    ensures
        windowset::some_has_id(windowset::all_windows(displays), first) && windowset::some_has_id(
            windowset::all_windows(displays),
            second,
        ) ==> {
            &&& count(windowset::swapped(displays, first, second), first) == count(displays, second)
            &&& count(windowset::swapped(displays, first, second), second) == count(displays, first)
        },
        !windowset::some_has_id(windowset::all_windows(displays), first) || !windowset::some_has_id(
            windowset::all_windows(displays),
            second,
        ) ==> windowset::swapped(displays, first, second) == displays,
        forall|x: WinID|
            x != first && x != second ==> #[trigger] count(
                windowset::swapped(displays, first, second),
                x,
            ) == count(displays, x),
{
    let all = windowset::all_windows(displays);
    search::lemma_first_index_meaning(all, windowset::has_id(first));
    search::lemma_first_index_meaning(all, windowset::has_id(second));
    windowset::lemma_some_has_first(all, first);
    windowset::lemma_some_has_first(all, second);
    let left = search::first_where(all, windowset::has_id(first));
    let right = search::first_where(all, windowset::has_id(second));
    if left is Some && right is Some {
        let f = windowset::exchanged(first, left->0, second, right->0);
        assert(left->0.id == first && right->0.id == second);
        lemma_map_count(displays, f, first, second);
        lemma_map_count(displays, f, second, first);
        assert forall|x: WinID| x != first && x != second implies #[trigger] count(
            windowset::swapped(displays, first, second),
            x,
        ) == count(displays, x) by {
            lemma_map_count(displays, f, x, x);
        }
    }
}

/// Setting a width, or showing another workspace, loses and doubles no window.
pub proof fn law_width_and_view_keep_windows(
    displays: Seq<DisplayView>,
    window: WinID,
    ratio: crate::number::Number,
    number: u32,
)
    ensures
        same_windows(displays, edit::map_columns(displays, edit::widen(window, ratio))),
        same_windows(displays, windowset::viewed(displays, number)),
{
    let f = edit::widen(window, ratio);
    let after = edit::map_columns(displays, f);
    assert forall|x: WinID| count(displays, x) == #[trigger] count(after, x) by {
        assert forall|d: int| 0 <= d < displays.len() implies display_count(x)(#[trigger] after[d])
            == display_count(x)(displays[d]) by {
            let new = after[d].workspaces;
            let was = displays[d].workspaces;
            assert forall|w: int| 0 <= w < was.len() implies workspace_count(x)(#[trigger] new[w])
                == workspace_count(x)(was[w]) by {
                search::lemma_sum_same(
                    new[w].columns,
                    column_count(x),
                    was[w].columns,
                    column_count(x),
                );
            }
            search::lemma_sum_same(new, workspace_count(x), was, workspace_count(x));
        }
        search::lemma_sum_same(after, display_count(x), displays, display_count(x));
    }
    let shown = windowset::viewed(displays, number);
    let p = |d: DisplayView| d.has_number(number);
    search::lemma_first_index_meaning(displays, p);
    assert forall|x: WinID| count(displays, x) == #[trigger] count(shown, x) by {
        match search::first_index(displays, p) {
            Some(d) => {
                search::lemma_sum_same(
                    shown[d].workspaces,
                    workspace_count(x),
                    displays[d].workspaces,
                    workspace_count(x),
                );
                search::lemma_sum_update(displays, display_count(x), d, shown[d]);
            },
            None => {},
        }
    }
}

/// Showing a workspace that exists shows it and no other on its display, and
/// leaves what the other displays show alone.
pub proof fn law_view_shows_one(displays: Seq<DisplayView>, number: u32, at: int)
    requires
        0 <= at < displays.len(),
        displays[at].has_number(number),
    ensures
        exists|d: int|
            {
                let after = windowset::viewed(displays, number);
                &&& 0 <= d <= at
                &&& (#[trigger] displays[d]).has_number(number)
                &&& forall|w: int|
                    0 <= w < after[d].workspaces.len() ==> ((#[trigger] after[d].workspaces[w]).active
                        <==> after[d].workspaces[w].number == number)
                &&& forall|e: int|
                    0 <= e < displays.len() && e != d ==> #[trigger] after[e] == displays[e]
            },
{
    let p = |d: DisplayView| d.has_number(number);
    search::lemma_some_first_index(displays, p, at);
    let d = search::first_index(displays, p)->0;
    assert(displays[d].has_number(number));
}

/// No window is on two workspaces, nor twice on one.
pub open spec fn each_window_once(displays: Seq<DisplayView>) -> bool {
    let all = windowset::all_workspaces(displays);
    &&& forall|i: int, j: int, x: WinID|
        0 <= i < j < all.len() ==> !(#[trigger] all[i].holds(x) && #[trigger] all[j].holds(x))
    &&& forall|i: int, a: int, b: int|
        0 <= i < all.len() && 0 <= a < b < all[i].windows().len() ==> (#[trigger] all[i].windows()[a]).id
            != (#[trigger] all[i].windows()[b]).id
}

/// Where each window is in the layout once, "next" and "previous" undo each
/// other.
pub proof fn law_next_and_prev_are_inverse(set: WindowSetView, id: WinID)
    requires
        each_window_once(set.displays),
        set.workspace_of(id) is Some,
    ensures
        set.cycle(id, 1) is Some,
        set.cycle(set.cycle(id, 1)->0, -1) == Some(id),
        set.cycle(id, -1) is Some,
        set.cycle(set.cycle(id, -1)->0, 1) == Some(id),
{
    lemma_cycle_back(set, id, 1);
    lemma_cycle_back(set, id, -1);
}

proof fn lemma_cycle_back(set: WindowSetView, id: WinID, offset: int)
    requires
        each_window_once(set.displays),
        set.workspace_of(id) is Some,
        offset == 1 || offset == -1,
    ensures
        set.cycle(set.cycle(id, offset)->0, -offset) == Some(id),
{
    let all = windowset::all_workspaces(set.displays);
    let p = |w: WorkspaceView| w.holds(id);
    search::lemma_first_index_meaning(all, p);
    let k = search::first_index(all, p)->0;
    let workspace = all[k];
    let windows = workspace.windows();
    let n = windows.len() as int;
    windowset::lemma_workspace_holds(workspace, id);
    let i0 = choose|i: int| 0 <= i < windows.len() && (#[trigger] windows[i]).id == id;
    search::lemma_some_first_index(windows, windowset::has_id(id), i0);
    let at = search::first_index(windows, windowset::has_id(id))->0;
    let to = (at + offset) % n;
    vstd::arithmetic::div_mod::lemma_mod_bound(at + offset, n);
    let other = windows[to].id;
    // The other window is on the same workspace, and only there.
    assert(windowset::some_has_id(windows, other));
    windowset::lemma_workspace_holds(workspace, other);
    let q = |w: WorkspaceView| w.holds(other);
    assert(search::is_first(all, q, k)) by {
        assert forall|j: int| 0 <= j < k implies !q(#[trigger] all[j]) by {
            assert(!(all[j].holds(other) && all[k].holds(other)));
        }
    }
    search::lemma_first_index(all, q, k);
    assert(search::is_first(windows, windowset::has_id(other), to)) by {
        assert forall|j: int| 0 <= j < to implies !windowset::has_id(other)(
            #[trigger] windows[j],
        ) by {
            assert(all[k].windows()[j].id != all[k].windows()[to].id);
        }
    }
    search::lemma_first_index(windows, windowset::has_id(other), to);
    assert((to - offset) % n == at) by {
        if 0 <= at + offset < n {
            vstd::arithmetic::div_mod::lemma_small_mod((at + offset) as nat, n as nat);
            vstd::arithmetic::div_mod::lemma_small_mod(at as nat, n as nat);
        } else if at + offset == n {
            vstd::arithmetic::div_mod::lemma_mod_self_0(n);
            vstd::arithmetic::div_mod::lemma_fundamental_div_mod_converse(-1, n, -1, n - 1);
        } else {
            vstd::arithmetic::div_mod::lemma_fundamental_div_mod_converse(-1, n, -1, n - 1);
            vstd::arithmetic::div_mod::lemma_mod_self_0(n);
        }
    }
}

} // verus!
