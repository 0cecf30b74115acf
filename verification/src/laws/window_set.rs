//! What the methods of a window set do, said of places: a display, a workspace on it, a
//! column of that, and a window from the top.
use vstd::prelude::*;

use crate::number::Number;
use crate::search;
use crate::windowset;
use crate::windowset::edit;
use crate::windowset::{
    ColumnKind, ColumnView, DisplayView, LayoutOp, WinID, WindowRec, WindowSetView, WorkspaceView,
};

verus! {

/// The place in a column where a window is.
pub ghost struct Place {
    pub d: int,
    pub w: int,
    pub c: int,
    pub p: int,
}

/// The workspace of a display.
pub open spec fn has_workspace(displays: Seq<DisplayView>, d: int, w: int) -> bool {
    0 <= d < displays.len() && 0 <= w < displays[d].workspaces.len()
}

/// There is a window at the place.
pub open spec fn has_place(displays: Seq<DisplayView>, at: Place) -> bool {
    &&& has_workspace(displays, at.d, at.w)
    &&& 0 <= at.c < displays[at.d].workspaces[at.w].columns.len()
    &&& 0 <= at.p < displays[at.d].workspaces[at.w].columns[at.c].windows.len()
}

/// The window at the place.
pub open spec fn at_place(displays: Seq<DisplayView>, at: Place) -> WindowRec {
    displays[at.d].workspaces[at.w].columns[at.c].windows[at.p]
}

/// There is a floating window there.
pub open spec fn has_float(displays: Seq<DisplayView>, d: int, w: int, k: int) -> bool {
    has_workspace(displays, d, w) && 0 <= k < displays[d].workspaces[w].floating.len()
}

/// The floating window there.
pub open spec fn float_at(displays: Seq<DisplayView>, d: int, w: int, k: int) -> WindowRec {
    displays[d].workspaces[w].floating[k]
}

/// The window is tiled at the place, and there is no other with its id.
pub open spec fn only_tiled_at(displays: Seq<DisplayView>, id: WinID, at: Place) -> bool {
    &&& has_place(displays, at)
    &&& at_place(displays, at).id == id
    &&& forall|other: Place| #[trigger]
        has_place(displays, other) && at_place(displays, other).id == id ==> other == at
    &&& forall|d: int, w: int, k: int| #[trigger]
        has_float(displays, d, w, k) ==> float_at(displays, d, w, k).id != id
}

/// The window floats there, and there is no other with its id.
pub open spec fn only_floats_at(
    displays: Seq<DisplayView>,
    id: WinID,
    d: int,
    w: int,
    k: int,
) -> bool {
    &&& has_float(displays, d, w, k)
    &&& float_at(displays, d, w, k).id == id
    &&& forall|other: Place| #[trigger]
        has_place(displays, other) ==> at_place(displays, other).id != id
    &&& forall|d2: int, w2: int, k2: int| #[trigger]
        has_float(displays, d2, w2, k2) && float_at(displays, d2, w2, k2).id == id ==> d2 == d
            && w2 == w && k2 == k
}

/// The first workspace for which `p` holds.
pub open spec fn is_first_workspace(
    displays: Seq<DisplayView>,
    p: spec_fn(WorkspaceView) -> bool,
    d: int,
    w: int,
) -> bool {
    &&& has_workspace(displays, d, w)
    &&& p(displays[d].workspaces[w])
    &&& forall|d2: int, w2: int| #[trigger]
        has_workspace(displays, d2, w2) && (d2 < d || d2 == d && w2 < w) ==> !p(
            displays[d2].workspaces[w2],
        )
}

/// The first workspace for which something holds is found.
proof fn lemma_found(
    displays: Seq<DisplayView>,
    p: spec_fn(WorkspaceView) -> bool,
    d: int,
    w: int,
)
    requires
        is_first_workspace(displays, p, d, w),
    ensures
        edit::find_workspace(displays, p) == Some((d, w)),
{
    let f = edit::some_workspace(p);
    assert(f(displays[d]));
    assert forall|d2: int| 0 <= d2 < d implies !f(#[trigger] displays[d2]) by {
        if f(displays[d2]) {
            let w2 = choose|w2: int|
                0 <= w2 < displays[d2].workspaces.len() && p(
                    #[trigger] displays[d2].workspaces[w2],
                );
            assert(has_workspace(displays, d2, w2));
        }
    }
    search::lemma_first_index(displays, f, d);
    let here = displays[d].workspaces;
    assert forall|w2: int| 0 <= w2 < w implies !p(#[trigger] here[w2]) by {
        assert(has_workspace(displays, d, w2));
    }
    search::lemma_first_index(here, p, w);
}

/// A window that is tiled at one place is found there.
proof fn lemma_tiled(displays: Seq<DisplayView>, id: WinID, at: Place)
    requires
        only_tiled_at(displays, id, at),
    ensures
        is_first_workspace(displays, edit::holder(id), at.d, at.w),
        displays[at.d].workspaces[at.w].column_of(id) == Some(at.c),
        search::first_index(
            displays[at.d].workspaces[at.w].columns[at.c].windows,
            windowset::has_id(id),
        ) == Some(at.p),
{
    let here = displays[at.d].workspaces[at.w];
    let column = here.columns[at.c];
    assert(column.windows[at.p].id == id);
    assert(column.holds(id));
    assert(here.tiles(id));
    assert forall|d: int, w: int| #[trigger]
        has_workspace(displays, d, w) && (d != at.d || w != at.w) implies !edit::holder(id)(
        displays[d].workspaces[w],
    ) by {
        lemma_not_held(displays, id, at, d, w);
    }
    let f = |c: ColumnView| c.holds(id);
    assert forall|c: int| 0 <= c < at.c implies !f(#[trigger] here.columns[c]) by {
        if here.columns[c].holds(id) {
            let windows = here.columns[c].windows;
            let p = choose|p: int| 0 <= p < windows.len() && (#[trigger] windows[p]).id == id;
            assert(has_place(displays, Place { c, p, ..at }));
        }
    }
    search::lemma_first_index(here.columns, f, at.c);
    assert forall|p: int| 0 <= p < at.p implies !windowset::has_id(id)(
        #[trigger] column.windows[p],
    ) by {
        assert(has_place(displays, Place { p, ..at }));
    }
    search::lemma_first_index(column.windows, windowset::has_id(id), at.p);
}

/// No other workspace holds a window that is tiled at one place.
proof fn lemma_not_held(displays: Seq<DisplayView>, id: WinID, at: Place, d: int, w: int)
    requires
        only_tiled_at(displays, id, at),
        has_workspace(displays, d, w),
        d != at.d || w != at.w,
    ensures
        !displays[d].workspaces[w].holds(id),
{
    let there = displays[d].workspaces[w];
    if there.tiles(id) {
        let c = choose|c: int| 0 <= c < there.columns.len() && (#[trigger] there.columns[c]).holds(id);
        let windows = there.columns[c].windows;
        let p = choose|p: int| 0 <= p < windows.len() && (#[trigger] windows[p]).id == id;
        assert(has_place(displays, Place { d, w, c, p }));
    } else if windowset::some_has_id(there.floating, id) {
        let k = choose|k: int|
            0 <= k < there.floating.len() && (#[trigger] there.floating[k]).id == id;
        assert(has_float(displays, d, w, k));
    }
}

/// A window that floats at one place is found there.
proof fn lemma_floating(displays: Seq<DisplayView>, id: WinID, d: int, w: int, k: int)
    requires
        only_floats_at(displays, id, d, w, k),
    ensures
        is_first_workspace(displays, edit::holder(id), d, w),
        displays[d].workspaces[w].column_of(id) is None,
        search::first_index(displays[d].workspaces[w].floating, windowset::has_id(id)) == Some(k),
{
    let here = displays[d].workspaces[w];
    assert(here.floating[k].id == id);
    assert(windowset::some_has_id(here.floating, id));
    assert forall|d2: int, w2: int| #[trigger]
        has_workspace(displays, d2, w2) && (d2 != d || w2 != w) implies !edit::holder(id)(
        displays[d2].workspaces[w2],
    ) by {
        let there = displays[d2].workspaces[w2];
        if there.tiles(id) {
            let c = choose|c: int|
                0 <= c < there.columns.len() && (#[trigger] there.columns[c]).holds(id);
            let windows = there.columns[c].windows;
            let p = choose|p: int| 0 <= p < windows.len() && (#[trigger] windows[p]).id == id;
            assert(has_place(displays, Place { d: d2, w: w2, c, p }));
        } else if windowset::some_has_id(there.floating, id) {
            let k2 = choose|k2: int|
                0 <= k2 < there.floating.len() && (#[trigger] there.floating[k2]).id == id;
            assert(has_float(displays, d2, w2, k2));
        }
    }
    let f = |c: ColumnView| c.holds(id);
    assert forall|c: int| 0 <= c < here.columns.len() implies !f(#[trigger] here.columns[c]) by {
        if here.columns[c].holds(id) {
            let windows = here.columns[c].windows;
            let p = choose|p: int| 0 <= p < windows.len() && (#[trigger] windows[p]).id == id;
            assert(has_place(displays, Place { d, w, c, p }));
        }
    }
    search::lemma_no_first_index(here.columns, f);
    assert forall|k2: int| 0 <= k2 < k implies !windowset::has_id(id)(
        #[trigger] here.floating[k2],
    ) by {
        assert(has_float(displays, d, w, k2));
    }
    search::lemma_first_index(here.floating, windowset::has_id(id), k);
}

// ---------------------------------------------------------------------------
// Looking up
// ---------------------------------------------------------------------------
/// A window is found where it is: its record, its workspace, its display and its column.
pub proof fn law_window_is_found(set: WindowSetView, id: WinID, at: Place)
    requires
        only_tiled_at(set.displays, id, at),
    ensures
        set.window(id) == Some(at_place(set.displays, at)),
        set.workspace_of(id) == Some(set.displays[at.d].workspaces[at.w]),
        set.display_of(id) == Some(set.displays[at.d]),
        set.column_of(id) == Some(at.c),
{
    let displays = set.displays;
    let here = displays[at.d].workspaces[at.w];
    lemma_tiled(displays, id, at);
    lemma_only_workspace(displays, id, at);
    let f = |d: DisplayView| d.holds(id);
    assert(displays[at.d].workspaces[at.w].holds(id));
    assert forall|d: int| 0 <= d < at.d implies !f(#[trigger] displays[d]) by {
        if displays[d].holds(id) {
            let w = choose|w: int|
                0 <= w < displays[d].workspaces.len() && (
                #[trigger] displays[d].workspaces[w]).holds(id);
            assert(has_workspace(displays, d, w));
        }
    }
    search::lemma_first_index(displays, f, at.d);
    lemma_only_record(displays, id, at);
}

/// The workspaces of all displays are those of each.
proof fn lemma_among_workspaces(displays: Seq<DisplayView>, x: WorkspaceView)
    ensures
        windowset::all_workspaces(displays).contains(x) <==> exists|d: int, w: int| #[trigger]
            has_workspace(displays, d, w) && displays[d].workspaces[w] == x,
{
    let lists = displays.map_values(|d: DisplayView| d.workspaces);
    search::lemma_flatten_contains(lists, x);
    if windowset::all_workspaces(displays).contains(x) {
        let d = choose|d: int| 0 <= d < lists.len() && (#[trigger] lists[d]).contains(x);
        assert(lists[d] == displays[d].workspaces);
        let w = choose|w: int| 0 <= w < lists[d].len() && lists[d][w] == x;
        assert(has_workspace(displays, d, w));
    }
    if exists|d: int, w: int| #[trigger]
        has_workspace(displays, d, w) && displays[d].workspaces[w] == x {
        let (d, w) = choose|d: int, w: int| #[trigger]
            has_workspace(displays, d, w) && displays[d].workspaces[w] == x;
        assert(lists[d] == displays[d].workspaces);
        assert(lists[d][w] == x);
    }
}

/// The workspace of a window that is tiled at one place.
proof fn lemma_only_workspace(displays: Seq<DisplayView>, id: WinID, at: Place)
    requires
        only_tiled_at(displays, id, at),
    ensures
        search::first_where(
            windowset::all_workspaces(displays),
            |w: WorkspaceView| w.holds(id),
        ) == Some(displays[at.d].workspaces[at.w]),
{
    let all = windowset::all_workspaces(displays);
    let here = displays[at.d].workspaces[at.w];
    let f = |w: WorkspaceView| w.holds(id);
    lemma_tiled(displays, id, at);
    lemma_among_workspaces(displays, here);
    assert(has_workspace(displays, at.d, at.w));
    let k = choose|k: int| 0 <= k < all.len() && all[k] == here;
    search::lemma_some_first_index(all, f, k);
    let i = search::first_index(all, f)->0;
    lemma_among_workspaces(displays, all[i]);
    let (d, w) = choose|d: int, w: int| #[trigger]
        has_workspace(displays, d, w) && displays[d].workspaces[w] == all[i];
    if d != at.d || w != at.w {
        lemma_not_held(displays, id, at, d, w);
    }
}

/// The record of a window that is tiled at one place.
proof fn lemma_only_record(displays: Seq<DisplayView>, id: WinID, at: Place)
    requires
        only_tiled_at(displays, id, at),
    ensures
        search::first_where(windowset::all_windows(displays), windowset::has_id(id)) == Some(
            at_place(displays, at),
        ),
{
    let all = windowset::all_windows(displays);
    let workspaces = windowset::all_workspaces(displays);
    let lists = workspaces.map_values(|w: WorkspaceView| w.windows());
    let record = at_place(displays, at);
    let here = displays[at.d].workspaces[at.w];
    lemma_among_workspaces(displays, here);
    assert(has_workspace(displays, at.d, at.w));
    lemma_among_tiled(here, record);
    assert(here.columns[at.c].windows[at.p] == record);
    let t = choose|t: int| 0 <= t < here.tiled().len() && here.tiled()[t] == record;
    assert(here.windows()[t] == record);
    let n = choose|n: int| 0 <= n < workspaces.len() && workspaces[n] == here;
    assert(lists[n] == here.windows());
    search::lemma_flatten_contains(lists, record);
    let k = choose|k: int| 0 <= k < all.len() && all[k] == record;
    search::lemma_some_first_index(all, windowset::has_id(id), k);
    let i = search::first_index(all, windowset::has_id(id))->0;
    search::lemma_flatten_contains(lists, all[i]);
    let m = choose|m: int| 0 <= m < lists.len() && (#[trigger] lists[m]).contains(all[i]);
    assert(lists[m] == workspaces[m].windows());
    lemma_among_workspaces(displays, workspaces[m]);
    let (d, w) = choose|d: int, w: int| #[trigger]
        has_workspace(displays, d, w) && displays[d].workspaces[w] == workspaces[m];
    lemma_in_workspace(displays, d, w, all[i]);
}

/// The tiled windows of a workspace are those of its columns.
proof fn lemma_among_tiled(workspace: WorkspaceView, x: WindowRec)
    ensures
        workspace.tiled().contains(x) <==> exists|c: int, p: int|
            0 <= c < workspace.columns.len() && 0 <= p < workspace.columns[c].windows.len()
                && #[trigger] workspace.columns[c].windows[p] == x,
{
    let lists = workspace.columns.map_values(|c: ColumnView| c.windows);
    search::lemma_flatten_contains(lists, x);
    if workspace.tiled().contains(x) {
        let c = choose|c: int| 0 <= c < lists.len() && (#[trigger] lists[c]).contains(x);
        assert(lists[c] == workspace.columns[c].windows);
        let p = choose|p: int| 0 <= p < lists[c].len() && lists[c][p] == x;
        assert(workspace.columns[c].windows[p] == x);
    }
    if exists|c: int, p: int|
        0 <= c < workspace.columns.len() && 0 <= p < workspace.columns[c].windows.len()
            && #[trigger] workspace.columns[c].windows[p] == x {
        let (c, p) = choose|c: int, p: int|
            0 <= c < workspace.columns.len() && 0 <= p < workspace.columns[c].windows.len()
                && #[trigger] workspace.columns[c].windows[p] == x;
        assert(lists[c] == workspace.columns[c].windows);
        assert(lists[c][p] == x);
    }
}

/// A window of a workspace is at a place of it, or floats there.
proof fn lemma_in_workspace(displays: Seq<DisplayView>, d: int, w: int, x: WindowRec)
    requires
        has_workspace(displays, d, w),
        displays[d].workspaces[w].windows().contains(x),
    ensures
        (exists|at: Place| #[trigger] has_place(displays, at) && at_place(displays, at) == x) || (
        exists|k: int| #[trigger]
            has_float(displays, d, w, k) && float_at(displays, d, w, k) == x),
{
    let here = displays[d].workspaces[w];
    let all = here.windows();
    let i = choose|i: int| 0 <= i < all.len() && all[i] == x;
    if i < here.tiled().len() {
        assert(here.tiled()[i] == x);
        lemma_among_tiled(here, x);
        let (c, p) = choose|c: int, p: int|
            0 <= c < here.columns.len() && 0 <= p < here.columns[c].windows.len()
                && #[trigger] here.columns[c].windows[p] == x;
        assert(has_place(displays, Place { d, w, c, p }));
    } else {
        assert(has_float(displays, d, w, i - here.tiled().len()));
    }
}

/// Going east or west gives the window that shows in the very next column: the selected
/// one. There is none past the last column or before the first.
pub proof fn law_east_and_west_show_the_next_column(set: WindowSetView, id: WinID, at: Place)
    requires
        only_tiled_at(set.displays, id, at),
    ensures
        ({
            let columns = set.displays[at.d].workspaces[at.w].columns;
            &&& at.c + 1 < columns.len() && 0 <= columns[at.c + 1].selected < columns[at.c
                + 1].windows.len() ==> set.east_of(id) == Some(
                columns[at.c + 1].windows[columns[at.c + 1].selected].id,
            )
            &&& at.c + 1 == columns.len() ==> set.east_of(id) is None
            &&& at.c > 0 && 0 <= columns[at.c - 1].selected < columns[at.c - 1].windows.len()
                ==> set.west_of(id) == Some(
                columns[at.c - 1].windows[columns[at.c - 1].selected].id,
            )
            &&& at.c == 0 ==> set.west_of(id) is None
        }),
{
    law_window_is_found(set, id, at);
}

/// A column that points nowhere shows its first window.
pub proof fn law_column_without_selection_shows_its_first(column: ColumnView)
    requires
        column.windows.len() > 0,
        column.selected < 0 || column.selected >= column.windows.len(),
    ensures
        column.top() == Some(column.windows[0]),
{
}

/// The next window is the one behind it in its workspace, and the previous one the one
/// before; the last and the first follow each other.
pub proof fn law_next_goes_round(set: WindowSetView, id: WinID, at: Place, k: int)
    requires
        only_tiled_at(set.displays, id, at),
        ({
            let windows = set.displays[at.d].workspaces[at.w].windows();
            &&& 0 <= k < windows.len()
            &&& windows[k].id == id
            &&& forall|j: int| 0 <= j < k ==> (#[trigger] windows[j]).id != id
        }),
    ensures
        ({
            let windows = set.displays[at.d].workspaces[at.w].windows();
            &&& k + 1 < windows.len() ==> set.after(id) == Some(windows[k + 1].id)
            &&& k + 1 == windows.len() ==> set.after(id) == Some(windows[0].id)
            &&& k > 0 ==> set.before(id) == Some(windows[k - 1].id)
            &&& k == 0 ==> set.before(id) == Some(windows[windows.len() - 1].id)
        }),
{
    law_window_is_found(set, id, at);
    let windows = set.displays[at.d].workspaces[at.w].windows();
    search::lemma_first_index(windows, windowset::has_id(id), k);
    let n = windows.len() as int;
    assert(k + 1 < n ==> (k + 1) % n == k + 1) by (nonlinear_arith)
        requires
            0 <= k < n,
    ;
    assert(k + 1 == n ==> (k + 1) % n == 0) by (nonlinear_arith)
        requires
            0 <= k < n,
    ;
    assert(k > 0 ==> (k - 1) % n == k - 1) by (nonlinear_arith)
        requires
            0 <= k < n,
    ;
    assert(k == 0 ==> (k - 1) % n == n - 1) by (nonlinear_arith)
        requires
            0 <= k < n,
    ;
}

/// The windows of a workspace come column by column, each from its top, and the
/// floating ones come last.
pub proof fn law_windows_come_column_by_column(workspace: WorkspaceView, column: ColumnView)
    ensures
        ({
            let grown = WorkspaceView { columns: workspace.columns.push(column), ..workspace };
            grown.windows() == workspace.tiled() + column.windows + workspace.floating
        }),
        workspace.columns.len() == 0 ==> workspace.windows() == workspace.floating,
{
    let f = |c: ColumnView| c.windows;
    assert(workspace.columns.push(column).map_values(f) =~= workspace.columns.map_values(f).push(
        column.windows,
    ));
    workspace.columns.map_values(f).lemma_flatten_push(column.windows);
    if workspace.columns.len() == 0 {
        assert(workspace.columns.map_values(f) =~= Seq::empty());
        assert(workspace.windows() =~= workspace.floating);
    }
}

/// The workspace that is looked at is the one shown on the display that is in use.
pub proof fn law_current_is_what_is_shown(set: WindowSetView, d: int, w: int)
    requires
        has_workspace(set.displays, d, w),
        set.displays[d].active,
        forall|e: int| 0 <= e < d ==> !(#[trigger] set.displays[e]).active,
        set.displays[d].workspaces[w].active,
        forall|v: int| 0 <= v < w ==> !(#[trigger] set.displays[d].workspaces[v]).active,
    ensures
        set.current() == Some(set.displays[d].workspaces[w]),
{
    search::lemma_first_index(set.displays, |d: DisplayView| d.active, d);
    search::lemma_first_index(set.displays[d].workspaces, |w: WorkspaceView| w.active, w);
}

// ---------------------------------------------------------------------------
// Changing windows where they are
// ---------------------------------------------------------------------------
/// Two layouts have the same displays, workspaces and columns, of the same sizes; only
/// the windows in them may differ.
pub open spec fn same_shape(a: Seq<DisplayView>, b: Seq<DisplayView>) -> bool {
    &&& a.len() == b.len()
    &&& forall|d: int|
        0 <= d < a.len() ==> {
            &&& (#[trigger] a[d]).id == b[d].id
            &&& a[d].frame == b[d].frame
            &&& a[d].active == b[d].active
            &&& a[d].workspaces.len() == b[d].workspaces.len()
        }
    &&& forall|d: int, w: int| #[trigger]
        has_workspace(a, d, w) ==> {
            let (x, y) = (a[d].workspaces[w], b[d].workspaces[w]);
            &&& x.number == y.number
            &&& x.native_id == y.native_id
            &&& x.active == y.active
            &&& x.floating.len() == y.floating.len()
            &&& x.columns.len() == y.columns.len()
            &&& forall|c: int|
                0 <= c < x.columns.len() ==> {
                    &&& (#[trigger] x.columns[c]).kind == y.columns[c].kind
                    &&& x.columns[c].width_ratio == y.columns[c].width_ratio
                    &&& x.columns[c].selected == y.columns[c].selected
                    &&& x.columns[c].windows.len() == y.columns[c].windows.len()
                }
        }
}

/// Changing each window changes nothing else.
proof fn lemma_mapped(displays: Seq<DisplayView>, f: spec_fn(WindowRec) -> WindowRec)
    ensures
        ({
            let after = edit::map_windows(displays, f);
            &&& same_shape(displays, after)
            &&& forall|at: Place| #[trigger]
                has_place(displays, at) ==> at_place(after, at) == f(at_place(displays, at))
            &&& forall|d: int, w: int, k: int| #[trigger]
                has_float(displays, d, w, k) ==> float_at(after, d, w, k) == f(
                    float_at(displays, d, w, k),
                )
        }),
{
    let after = edit::map_windows(displays, f);
    assert forall|d: int, w: int| #[trigger] has_workspace(displays, d, w) implies {
        let (x, y) = (displays[d].workspaces[w], after[d].workspaces[w]);
        &&& y == edit::map_workspace(f)(x)
        &&& y.columns.len() == x.columns.len()
        &&& forall|c: int|
            0 <= c < x.columns.len() ==> y.columns[c] == edit::map_column(f)(
                #[trigger] x.columns[c],
            )
    } by {
        assert(after[d] == edit::map_display(f)(displays[d]));
    }
    assert forall|at: Place| #[trigger] has_place(displays, at) implies at_place(after, at) == f(
        at_place(displays, at),
    ) by {
        assert(has_workspace(displays, at.d, at.w));
    }
    assert forall|d: int, w: int, k: int| #[trigger]
        has_float(displays, d, w, k) implies float_at(after, d, w, k) == f(
        float_at(displays, d, w, k),
    ) by {
        assert(has_workspace(displays, d, w));
    }
}

/// Focusing a window marks it as focused, and no other; nothing else about any window
/// changes.
pub proof fn law_focus_marks_one(displays: Seq<DisplayView>, window: WinID)
    ensures
        ({
            let after = edit::map_windows(displays, windowset::refocused(window));
            &&& same_shape(displays, after)
            &&& forall|at: Place| #[trigger]
                has_place(displays, at) ==> {
                    let (old_rec, new_rec) = (at_place(displays, at), at_place(after, at));
                    &&& new_rec.focused <==> old_rec.id == window
                    &&& new_rec == (WindowRec { focused: new_rec.focused, ..old_rec })
                }
            &&& forall|d: int, w: int, k: int| #[trigger]
                has_float(displays, d, w, k) ==> {
                    let old_rec = float_at(displays, d, w, k);
                    let new_rec = float_at(after, d, w, k);
                    &&& new_rec.focused <==> old_rec.id == window
                    &&& new_rec == (WindowRec { focused: new_rec.focused, ..old_rec })
                }
        }),
{
    lemma_mapped(displays, windowset::refocused(window));
}

/// Managing a window, or no longer doing so, sets that of this window alone.
pub proof fn law_manage_marks_one(displays: Seq<DisplayView>, window: WinID, managed: bool)
    ensures
        ({
            let after = edit::map_windows(displays, windowset::remanaged(window, managed));
            &&& same_shape(displays, after)
            &&& forall|at: Place| #[trigger]
                has_place(displays, at) ==> {
                    let (old_rec, new_rec) = (at_place(displays, at), at_place(after, at));
                    &&& new_rec.managed == if old_rec.id == window {
                        managed
                    } else {
                        old_rec.managed
                    }
                    &&& new_rec == (WindowRec { managed: new_rec.managed, ..old_rec })
                }
            &&& forall|d: int, w: int, k: int| #[trigger]
                has_float(displays, d, w, k) ==> {
                    let old_rec = float_at(displays, d, w, k);
                    let new_rec = float_at(after, d, w, k);
                    &&& new_rec.managed == if old_rec.id == window {
                        managed
                    } else {
                        old_rec.managed
                    }
                    &&& new_rec == (WindowRec { managed: new_rec.managed, ..old_rec })
                }
        }),
{
    lemma_mapped(displays, windowset::remanaged(window, managed));
}

/// Swapping puts each of two windows at the other's place, and every other window stays.
pub proof fn law_swap_exchanges_places(
    displays: Seq<DisplayView>,
    first: WinID,
    second: WinID,
    a: Place,
    b: Place,
)
    requires
        only_tiled_at(displays, first, a),
        only_tiled_at(displays, second, b),
    ensures
        ({
            let after = windowset::swapped(displays, first, second);
            &&& same_shape(displays, after)
            &&& at_place(after, a) == at_place(displays, b)
            &&& at_place(after, b) == at_place(displays, a)
            &&& forall|at: Place| #[trigger]
                has_place(displays, at) && at != a && at != b ==> at_place(after, at) == at_place(
                    displays,
                    at,
                )
            &&& forall|d: int, w: int, k: int| #[trigger]
                has_float(displays, d, w, k) ==> float_at(after, d, w, k) == float_at(
                    displays,
                    d,
                    w,
                    k,
                )
        }),
{
    lemma_only_record(displays, first, a);
    lemma_only_record(displays, second, b);
    let f = windowset::exchanged(
        first,
        at_place(displays, a),
        second,
        at_place(displays, b),
    );
    lemma_mapped(displays, f);
    assert(has_place(displays, a) && has_place(displays, b));
}

/// A width goes to the column of the window and to no other, and changes nothing else.
pub proof fn law_width_goes_to_the_column(
    displays: Seq<DisplayView>,
    window: WinID,
    ratio: Number,
    at: Place,
    d: int,
    w: int,
    c: int,
)
    requires
        only_tiled_at(displays, window, at),
        has_workspace(displays, d, w),
        0 <= c < displays[d].workspaces[w].columns.len(),
    ensures
        ({
            let after = edit::map_columns(displays, edit::widen(window, ratio));
            let (x, y) = (displays[d].workspaces[w], after[d].workspaces[w]);
            let here = d == at.d && w == at.w && c == at.c;
            &&& after.len() == displays.len()
            &&& after[d].workspaces.len() == displays[d].workspaces.len()
            &&& after[d].id == displays[d].id
            &&& y.columns.len() == x.columns.len()
            &&& y.floating == x.floating
            &&& y.number == x.number
            &&& y.active == x.active
            &&& y.columns[c].width_ratio == if here {
                ratio
            } else {
                x.columns[c].width_ratio
            }
            &&& y.columns[c].windows == x.columns[c].windows
            &&& y.columns[c].kind == x.columns[c].kind
            &&& y.columns[c].selected == x.columns[c].selected
        }),
{
    let x = displays[d].workspaces[w];
    if x.columns[c].holds(window) {
        let windows = x.columns[c].windows;
        let p = choose|p: int| 0 <= p < windows.len() && (#[trigger] windows[p]).id == window;
        assert(has_place(displays, Place { d, w, c, p }));
    }
    if d == at.d && w == at.w && c == at.c {
        assert(x.columns[c].windows[at.p].id == window);
    }
}

// ---------------------------------------------------------------------------
// Moving windows
// ---------------------------------------------------------------------------
/// Layouts that differ in one workspace only.
pub open spec fn differ_at(a: Seq<DisplayView>, b: Seq<DisplayView>, d: int, w: int) -> bool {
    &&& has_workspace(a, d, w)
    &&& a.len() == b.len()
    &&& b[d].id == a[d].id
    &&& b[d].frame == a[d].frame
    &&& b[d].active == a[d].active
    &&& b[d].workspaces.len() == a[d].workspaces.len()
    &&& b[d].workspaces[w].number == a[d].workspaces[w].number
    &&& b[d].workspaces[w].native_id == a[d].workspaces[w].native_id
    &&& b[d].workspaces[w].active == a[d].workspaces[w].active
    &&& forall|e: int| 0 <= e < a.len() && e != d ==> #[trigger] b[e] == a[e]
    &&& forall|v: int|
        0 <= v < a[d].workspaces.len() && v != w ==> #[trigger] b[d].workspaces[v]
            == a[d].workspaces[v]
}

/// Taking a window that is alone in its column takes the column away; one of several
/// leaves the others in order, and one that is left alone is single. All else stays.
pub proof fn law_taken_window_leaves_its_column(
    displays: Seq<DisplayView>,
    id: WinID,
    at: Place,
)
    requires
        only_tiled_at(displays, id, at),
    ensures
        edit::take_window(displays, id) is Some,
        ({
            let (record, rest) = edit::take_window(displays, id)->0;
            let before = displays[at.d].workspaces[at.w].columns;
            let after = rest[at.d].workspaces[at.w].columns;
            let (old_column, column) = (before[at.c], after[at.c]);
            let left = old_column.windows.take(at.p) + old_column.windows.skip(at.p + 1);
            &&& record == at_place(displays, at)
            &&& differ_at(displays, rest, at.d, at.w)
            &&& rest[at.d].workspaces[at.w].floating == displays[at.d].workspaces[at.w].floating
            &&& old_column.windows.len() == 1 ==> after == before.take(at.c) + before.skip(
                at.c + 1,
            )
            &&& old_column.windows.len() > 1 ==> {
                &&& after.len() == before.len()
                &&& column.windows == left
                &&& column.width_ratio == old_column.width_ratio
                &&& column.kind == if left.len() == 1 {
                    ColumnKind::Single
                } else {
                    old_column.kind
                }
                &&& column.selected == if old_column.selected < left.len() {
                    old_column.selected
                } else {
                    left.len() - 1
                }
                &&& forall|c: int|
                    0 <= c < before.len() && c != at.c ==> #[trigger] after[c] == before[c]
            }
        }),
{
    lemma_tiled(displays, id, at);
    lemma_found(displays, edit::holder(id), at.d, at.w);
    let before = displays[at.d].workspaces[at.w].columns;
    let windows = before[at.c].windows;
    assert(windows.remove(at.p) =~= windows.take(at.p) + windows.skip(at.p + 1));
    assert(before.remove(at.c) =~= before.take(at.c) + before.skip(at.c + 1));
}

/// Taking a floating window takes it from those that float there, and all else stays.
pub proof fn law_taken_float_leaves(
    displays: Seq<DisplayView>,
    id: WinID,
    d: int,
    w: int,
    k: int,
)
    requires
        only_floats_at(displays, id, d, w, k),
    ensures
        edit::take_window(displays, id) is Some,
        ({
            let (record, rest) = edit::take_window(displays, id)->0;
            let before = displays[d].workspaces[w];
            &&& record == before.floating[k]
            &&& differ_at(displays, rest, d, w)
            &&& rest[d].workspaces[w].columns == before.columns
            &&& rest[d].workspaces[w].floating == before.floating.take(k) + before.floating.skip(
                k + 1,
            )
        }),
{
    lemma_floating(displays, id, d, w, k);
    lemma_found(displays, edit::holder(id), d, w);
    let floating = displays[d].workspaces[w].floating;
    assert(floating.remove(k) =~= floating.take(k) + floating.skip(k + 1));
}

/// A window that is nowhere is not taken, and moving it changes nothing.
pub proof fn law_missing_window_is_not_moved(
    displays: Seq<DisplayView>,
    id: WinID,
    onto: WinID,
    flag: bool,
    number: u32,
)
    requires
        forall|at: Place| #[trigger] has_place(displays, at) ==> at_place(displays, at).id != id,
        forall|d: int, w: int, k: int| #[trigger]
            has_float(displays, d, w, k) ==> float_at(displays, d, w, k).id != id,
    ensures
        windowset::shifted(displays, id, number) == displays,
        windowset::unstacked(displays, id) == displays,
        windowset::refloated(displays, id, flag) == displays,
        windowset::stacked(displays, id, onto, flag) == displays,
{
    let f = edit::some_workspace(edit::holder(id));
    assert forall|d: int| 0 <= d < displays.len() implies !f(#[trigger] displays[d]) by {
        if f(displays[d]) {
            let w = choose|w: int|
                0 <= w < displays[d].workspaces.len() && edit::holder(id)(
                    #[trigger] displays[d].workspaces[w],
                );
            let there = displays[d].workspaces[w];
            if there.tiles(id) {
                let c = choose|c: int|
                    0 <= c < there.columns.len() && (#[trigger] there.columns[c]).holds(id);
                let windows = there.columns[c].windows;
                let p = choose|p: int| 0 <= p < windows.len() && (#[trigger] windows[p]).id == id;
                assert(has_place(displays, Place { d, w, c, p }));
            } else {
                let k = choose|k: int|
                    0 <= k < there.floating.len() && (#[trigger] there.floating[k]).id == id;
                assert(has_float(displays, d, w, k));
            }
        }
    }
    search::lemma_no_first_index(displays, f);
}

/// A workspace has got one more column, at its end: a single window of half the
/// display's width.
pub open spec fn has_new_column(a: WorkspaceView, b: WorkspaceView, record: WindowRec) -> bool {
    let n = a.columns.len() as int;
    &&& b.floating == a.floating
    &&& b.columns.len() == n + 1
    &&& b.columns[n].windows == seq![record]
    &&& b.columns[n].kind == ColumnKind::Single
    &&& b.columns[n].selected == 0
    &&& b.columns[n].width_ratio.bits == 0x3FE0_0000_0000_0000
    &&& forall|c: int| 0 <= c < n ==> #[trigger] b.columns[c] == a.columns[c]
}

/// A window that is sent to a workspace has a new column at the end of the first one
/// with that number; the rest of the layout is what the window left behind.
pub proof fn law_shift_appends_a_column(
    displays: Seq<DisplayView>,
    window: WinID,
    number: u32,
    d: int,
    w: int,
)
    requires
        edit::take_window(displays, window) is Some,
        is_first_workspace(
            (edit::take_window(displays, window)->0).1,
            |x: WorkspaceView| x.number == number,
            d,
            w,
        ),
    ensures
        ({
            let (record, rest) = edit::take_window(displays, window)->0;
            let after = windowset::shifted(displays, window, number);
            &&& differ_at(rest, after, d, w)
            &&& has_new_column(rest[d].workspaces[w], after[d].workspaces[w], record)
        }),
{
    let rest = (edit::take_window(displays, window)->0).1;
    let p = windowset::numbered(number);
    assert(is_first_workspace(rest, p, d, w));
    lemma_found(rest, p, d, w);
}

/// A window that is unstacked has a new column at the end of the first workspace that is
/// shown, and so has one that is sunk, which floats no more.
pub proof fn law_unstack_and_sink_append_a_column(
    displays: Seq<DisplayView>,
    window: WinID,
    d: int,
    w: int,
)
    requires
        edit::take_window(displays, window) is Some,
        is_first_workspace(
            (edit::take_window(displays, window)->0).1,
            |x: WorkspaceView| x.active,
            d,
            w,
        ),
    ensures
        ({
            let (record, rest) = edit::take_window(displays, window)->0;
            let unstacked = windowset::unstacked(displays, window);
            let sunk = windowset::refloated(displays, window, false);
            &&& differ_at(rest, unstacked, d, w)
            &&& has_new_column(rest[d].workspaces[w], unstacked[d].workspaces[w], record)
            &&& differ_at(rest, sunk, d, w)
            &&& has_new_column(
                rest[d].workspaces[w],
                sunk[d].workspaces[w],
                WindowRec { floating: false, ..record },
            )
        }),
{
    let rest = (edit::take_window(displays, window)->0).1;
    let p = windowset::shown();
    assert(is_first_workspace(rest, p, d, w));
    lemma_found(rest, p, d, w);
}

/// A window that is made to float is the last of those that float above the first
/// workspace that is shown, and in no column.
pub proof fn law_float_joins_the_floating(
    displays: Seq<DisplayView>,
    window: WinID,
    d: int,
    w: int,
)
    requires
        edit::take_window(displays, window) is Some,
        is_first_workspace(
            (edit::take_window(displays, window)->0).1,
            |x: WorkspaceView| x.active,
            d,
            w,
        ),
    ensures
        ({
            let (record, rest) = edit::take_window(displays, window)->0;
            let after = windowset::refloated(displays, window, true);
            &&& differ_at(rest, after, d, w)
            &&& after[d].workspaces[w].columns == rest[d].workspaces[w].columns
            &&& after[d].workspaces[w].floating == rest[d].workspaces[w].floating.push(
                WindowRec { floating: true, ..record },
            )
        }),
{
    let rest = (edit::take_window(displays, window)->0).1;
    let p = windowset::shown();
    assert(is_first_workspace(rest, p, d, w));
    lemma_found(rest, p, d, w);
}

/// A window that is stacked onto another is the last of that one's column, which becomes
/// a stack, or tabs where these are asked for; all else stays as the window left it.
pub proof fn law_stack_joins_the_column(
    displays: Seq<DisplayView>,
    window: WinID,
    onto: WinID,
    tabs: bool,
    at: Place,
)
    requires
        edit::take_window(displays, window) is Some,
        only_tiled_at((edit::take_window(displays, window)->0).1, onto, at),
    ensures
        ({
            let (record, rest) = edit::take_window(displays, window)->0;
            let after = windowset::stacked(displays, window, onto, tabs);
            let (x, y) = (rest[at.d].workspaces[at.w], after[at.d].workspaces[at.w]);
            &&& differ_at(rest, after, at.d, at.w)
            &&& y.floating == x.floating
            &&& y.columns.len() == x.columns.len()
            &&& y.columns[at.c].windows == x.columns[at.c].windows.push(record)
            &&& y.columns[at.c].width_ratio == x.columns[at.c].width_ratio
            &&& y.columns[at.c].selected == x.columns[at.c].selected
            &&& y.columns[at.c].kind == if tabs {
                ColumnKind::Tabs
            } else {
                ColumnKind::Stack
            }
            &&& forall|c: int|
                0 <= c < x.columns.len() && c != at.c ==> #[trigger] y.columns[c] == x.columns[c]
        }),
{
    let rest = (edit::take_window(displays, window)->0).1;
    lemma_tiled(rest, onto, at);
    let p = windowset::tiler(onto);
    let here = rest[at.d].workspaces[at.w];
    assert(here.columns[at.c].windows[at.p].id == onto);
    assert(here.columns[at.c].holds(onto));
    assert(here.tiles(onto));
    assert forall|d: int, w: int| #[trigger]
        has_workspace(rest, d, w) && (d < at.d || d == at.d && w < at.w) implies !p(
        rest[d].workspaces[w],
    ) by {
        assert(!edit::holder(onto)(rest[d].workspaces[w]));
    }
    lemma_found(rest, p, at.d, at.w);
}

/// One more op has been recorded, and the focus is where it was.
pub open spec fn has_recorded(
    before: WindowSetView,
    after: WindowSetView,
    op: LayoutOp,
    displays: Seq<DisplayView>,
) -> bool {
    &&& after.ops.len() == before.ops.len() + 1
    &&& after.ops[before.ops.len() as int] == op
    &&& forall|k: int| 0 <= k < before.ops.len() ==> #[trigger] after.ops[k] == before.ops[k]
    &&& after.focused == before.focused
    &&& after.displays == displays
}

/// Each change of a set is recorded as the op that makes it, behind those before it, and
/// is the change that the op stands for. The focus moves only where a window is focused.
pub proof fn law_changes_are_recorded(
    set: WindowSetView,
    window: WinID,
    other: WinID,
    number: u32,
    follow: bool,
    ratio: Number,
)
    ensures
        set.focusing(window).focused == Some(window),
        set.focusing(window).ops == set.ops.push(LayoutOp::Focus(window)),
        set.focusing(window).displays == edit::map_windows(
            set.displays,
            windowset::refocused(window),
        ),
        has_recorded(
            set,
            set.swapping(window, other),
            LayoutOp::Swap(window, other),
            windowset::swapped(set.displays, window, other),
        ),
        has_recorded(
            set,
            set.shifting(window, number, follow),
            LayoutOp::MoveToWorkspace { window, workspace: number, follow },
            windowset::shifted(set.displays, window, number),
        ),
        has_recorded(
            set,
            set.viewing(number),
            LayoutOp::View { workspace: number },
            windowset::viewed(set.displays, number),
        ),
        has_recorded(
            set,
            set.floating_out(window),
            LayoutOp::SetFloating { window, floating: true },
            windowset::refloated(set.displays, window, true),
        ),
        has_recorded(
            set,
            set.sinking(window),
            LayoutOp::SetFloating { window, floating: false },
            windowset::refloated(set.displays, window, false),
        ),
        has_recorded(
            set,
            set.managing(window),
            LayoutOp::SetManaged { window, managed: true },
            edit::map_windows(set.displays, windowset::remanaged(window, true)),
        ),
        has_recorded(
            set,
            set.unmanaging(window),
            LayoutOp::SetManaged { window, managed: false },
            edit::map_windows(set.displays, windowset::remanaged(window, false)),
        ),
        has_recorded(
            set,
            set.widening(window, ratio),
            LayoutOp::SetWidth { window, ratio },
            edit::map_columns(set.displays, edit::widen(window, ratio)),
        ),
        has_recorded(
            set,
            set.stacking(window, other),
            LayoutOp::Stack { window, onto: other, tabs: false },
            windowset::stacked(set.displays, window, other, false),
        ),
        has_recorded(
            set,
            set.tabbing(window, other),
            LayoutOp::Stack { window, onto: other, tabs: true },
            windowset::stacked(set.displays, window, other, true),
        ),
        has_recorded(
            set,
            set.unstacking(window),
            LayoutOp::Unstack(window),
            windowset::unstacked(set.displays, window),
        ),
{
}

/// An empty column shows nothing, and one whose selection is in range shows that window.
pub proof fn law_column_shows_its_selection(column: ColumnView)
    ensures
        column.windows.len() == 0 ==> column.top() is None,
        0 <= column.selected < column.windows.len() ==> column.top() == Some(
            column.windows[column.selected],
        ),
{
}

/// Showing a workspace marks it as shown and no other on its display; nothing else
/// changes.
pub proof fn law_view_marks_one_workspace(
    displays: Seq<DisplayView>,
    number: u32,
    d: int,
    w: int,
    v: int,
)
    requires
        has_workspace(displays, d, w),
        displays[d].workspaces[w].number == number,
        forall|e: int, u: int| #[trigger]
            has_workspace(displays, e, u) && e < d ==> displays[e].workspaces[u].number != number,
        0 <= v < displays[d].workspaces.len(),
    ensures
        ({
            let after = windowset::viewed(displays, number);
            let (x, y) = (displays[d].workspaces[v], after[d].workspaces[v]);
            &&& after.len() == displays.len()
            &&& forall|e: int|
                0 <= e < displays.len() && e != d ==> #[trigger] after[e] == displays[e]
            &&& after[d].workspaces.len() == displays[d].workspaces.len()
            &&& y.active <==> x.number == number
            &&& y.number == x.number
            &&& y.native_id == x.native_id
            &&& y.columns == x.columns
            &&& y.floating == x.floating
        }),
{
    let f = |d: DisplayView| d.has_number(number);
    assert(displays[d].workspaces[w].number == number);
    assert forall|e: int| 0 <= e < d implies !f(#[trigger] displays[e]) by {
        if displays[e].has_number(number) {
            let u = choose|u: int|
                0 <= u < displays[e].workspaces.len() && (
                #[trigger] displays[e].workspaces[u]).number == number;
            assert(has_workspace(displays, e, u));
        }
    }
    search::lemma_first_index(displays, f, d);
}

} // verus!
