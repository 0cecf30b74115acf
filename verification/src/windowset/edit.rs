//! Editing the tree: each function returns the changed tree and shares with
//! the one it was given whatever it did not reach.
use std::rc::Rc;

use vstd::prelude::*;

use crate::number::Number;
use crate::search;
use crate::windowset;
use crate::windowset::{
    position, ColumnKind, ColumnSet, ColumnView, DisplaySet,
    DisplayView, WinID, WindowRec, WorkspaceSet, WorkspaceView,
};

verus! {

/// Another pointer to the same value.
///
/// Trusts `Rc::clone` of the standard library to point at the value that the
/// given pointer points at.
#[verifier::external_body]
pub(crate) fn share<T>(value: &Rc<T>) -> (shared: Rc<T>)
    ensures
        shared == *value,
{
    Rc::clone(value)
}

impl Clone for ColumnSet {
    fn clone(&self) -> (copy: Self)
        ensures
            copy == *self,
    {
        ColumnSet {
            kind: self.kind,
            width_ratio: self.width_ratio,
            selected: self.selected,
            windows: share(&self.windows),
        }
    }
}

impl Clone for WorkspaceSet {
    fn clone(&self) -> (copy: Self)
        ensures
            copy == *self,
    {
        WorkspaceSet {
            number: self.number,
            native_id: self.native_id,
            active: self.active,
            columns: share(&self.columns),
            floating: share(&self.floating),
        }
    }
}

impl Clone for DisplaySet {
    fn clone(&self) -> (copy: Self)
        ensures
            copy == *self,
    {
        DisplaySet {
            id: self.id,
            frame: self.frame,
            active: self.active,
            workspaces: share(&self.workspaces),
        }
    }
}

// ---------------------------------------------------------------------------
// Changing every window or every column
// ---------------------------------------------------------------------------
/// The tree with `f` applied to every column.
pub open spec fn map_columns(
    displays: Seq<DisplayView>,
    f: spec_fn(ColumnView) -> ColumnView,
) -> Seq<DisplayView> {
    displays.map_values(
        |d: DisplayView|
            DisplayView {
                workspaces: d.workspaces.map_values(
                    |w: WorkspaceView| WorkspaceView { columns: w.columns.map_values(f), ..w },
                ),
                ..d
            },
    )
}

/// A column with `f` applied to each of its windows.
pub open spec fn map_column(f: spec_fn(WindowRec) -> WindowRec) -> spec_fn(
    ColumnView,
) -> ColumnView {
    |c: ColumnView| ColumnView { windows: c.windows.map_values(f), ..c }
}

/// A workspace with `f` applied to each of its windows, tiled and floating.
pub open spec fn map_workspace(f: spec_fn(WindowRec) -> WindowRec) -> spec_fn(
    WorkspaceView,
) -> WorkspaceView {
    |w: WorkspaceView|
        WorkspaceView {
            columns: w.columns.map_values(map_column(f)),
            floating: w.floating.map_values(f),
            ..w
        }
}

/// A display with `f` applied to each of its windows.
pub open spec fn map_display(f: spec_fn(WindowRec) -> WindowRec) -> spec_fn(
    DisplayView,
) -> DisplayView {
    |d: DisplayView| DisplayView { workspaces: d.workspaces.map_values(map_workspace(f)), ..d }
}

/// The tree with `f` applied to every window.
pub open spec fn map_windows(
    displays: Seq<DisplayView>,
    f: spec_fn(WindowRec) -> WindowRec,
) -> Seq<DisplayView> {
    displays.map_values(map_display(f))
}

/// The executable function `visit` computes `f`.
pub(crate) open spec fn computes<F: Fn(&WindowRec) -> WindowRec>(
    visit: F,
    f: spec_fn(WindowRec) -> WindowRec,
) -> bool {
    &&& forall|r: &WindowRec| #[trigger] call_requires(visit, (r,))
    &&& forall|r: &WindowRec, o: WindowRec| #[trigger]
        call_ensures(visit, (r,), o) ==> o == f(*r)
}

fn each_window<F: Fn(&WindowRec) -> WindowRec>(
    windows: &Vec<WindowRec>,
    visit: &F,
    Ghost(f): Ghost<spec_fn(WindowRec) -> WindowRec>,
) -> (changed: Vec<WindowRec>)
    requires
        computes(*visit, f),
    ensures
        changed@ == windows@.map_values(f),
{
    let mut changed: Vec<WindowRec> = Vec::new();
    let mut i: usize = 0;
    while i < windows.len()
        invariant
            i <= windows.len(),
            computes(*visit, f),
            changed@ == windows@.take(i as int).map_values(f),
        decreases windows.len() - i,
    {
        let record = visit(&windows[i]);
        changed.push(record);
        assert(windows@.take(i + 1).map_values(f) =~= windows@.take(i as int).map_values(f).push(
            f(windows@[i as int]),
        ));
        i = i + 1;
    }
    assert(windows@.take(i as int) =~= windows@);
    changed
}

fn each_in_columns<F: Fn(&WindowRec) -> WindowRec>(
    columns: &Vec<ColumnSet>,
    visit: &F,
    Ghost(f): Ghost<spec_fn(WindowRec) -> WindowRec>,
) -> (changed: Vec<ColumnSet>)
    requires
        computes(*visit, f),
    ensures
        changed@.map_values(|c: ColumnSet| c@) == columns@.map_values(
            |c: ColumnSet| c@,
        ).map_values(map_column(f)),
{
    let mut changed: Vec<ColumnSet> = Vec::new();
    let mut i: usize = 0;
    while i < columns.len()
        invariant
            i <= columns.len(),
            computes(*visit, f),
            changed.len() == i,
            forall|j: int| 0 <= j < i ==> (#[trigger] changed@[j])@ == map_column(f)(columns@[j]@),
        decreases columns.len() - i,
    {
        let column = &columns[i];
        changed.push(
            ColumnSet {
                kind: column.kind,
                width_ratio: column.width_ratio,
                selected: column.selected,
                windows: Rc::new(each_window(&column.windows, visit, Ghost(f))),
            },
        );
        i = i + 1;
    }
    assert(changed@.map_values(|c: ColumnSet| c@) =~= columns@.map_values(
        |c: ColumnSet| c@,
    ).map_values(map_column(f)));
    changed
}

fn each_in_workspaces<F: Fn(&WindowRec) -> WindowRec>(
    workspaces: &Vec<WorkspaceSet>,
    visit: &F,
    Ghost(f): Ghost<spec_fn(WindowRec) -> WindowRec>,
) -> (changed: Vec<WorkspaceSet>)
    requires
        computes(*visit, f),
    ensures
        changed@.map_values(|w: WorkspaceSet| w@) == workspaces@.map_values(
            |w: WorkspaceSet| w@,
        ).map_values(map_workspace(f)),
{
    let mut changed: Vec<WorkspaceSet> = Vec::new();
    let mut i: usize = 0;
    while i < workspaces.len()
        invariant
            i <= workspaces.len(),
            computes(*visit, f),
            changed.len() == i,
            forall|j: int|
                0 <= j < i ==> (#[trigger] changed@[j])@ == map_workspace(f)(workspaces@[j]@),
        decreases workspaces.len() - i,
    {
        let workspace = &workspaces[i];
        changed.push(
            WorkspaceSet {
                number: workspace.number,
                native_id: workspace.native_id,
                active: workspace.active,
                columns: Rc::new(each_in_columns(&workspace.columns, visit, Ghost(f))),
                floating: Rc::new(each_window(&workspace.floating, visit, Ghost(f))),
            },
        );
        i = i + 1;
    }
    assert(changed@.map_values(|w: WorkspaceSet| w@) =~= workspaces@.map_values(
        |w: WorkspaceSet| w@,
    ).map_values(map_workspace(f)));
    changed
}

/// Visits every window record in the tree.
pub(crate) fn for_each_window<F: Fn(&WindowRec) -> WindowRec>(
    displays: &Vec<DisplaySet>,
    visit: &F,
    Ghost(f): Ghost<spec_fn(WindowRec) -> WindowRec>,
) -> (changed: Vec<DisplaySet>)
    requires
        computes(*visit, f),
    ensures
        windowset::displays_view(changed@) == map_windows(windowset::displays_view(displays@), f),
{
    let mut changed: Vec<DisplaySet> = Vec::new();
    let mut i: usize = 0;
    while i < displays.len()
        invariant
            i <= displays.len(),
            computes(*visit, f),
            changed.len() == i,
            forall|j: int|
                0 <= j < i ==> (#[trigger] changed@[j])@ == map_display(f)(displays@[j]@),
        decreases displays.len() - i,
    {
        let display = &displays[i];
        changed.push(
            DisplaySet {
                id: display.id,
                frame: display.frame,
                active: display.active,
                workspaces: Rc::new(each_in_workspaces(&display.workspaces, visit, Ghost(f))),
            },
        );
        i = i + 1;
    }
    assert(windowset::displays_view(changed@) =~= map_windows(windowset::displays_view(displays@), f));
    changed
}

// ---------------------------------------------------------------------------
// Finding and replacing a workspace
// ---------------------------------------------------------------------------
/// Some workspace of the display satisfies `p`.
pub open spec fn some_workspace(p: spec_fn(WorkspaceView) -> bool) -> spec_fn(DisplayView) -> bool {
    |d: DisplayView| exists|w: int| 0 <= w < d.workspaces.len() && p(#[trigger] d.workspaces[w])
}

/// Where the first workspace that satisfies `p` is: its display's index, and
/// its own on that display.
pub open spec fn find_workspace(
    displays: Seq<DisplayView>,
    p: spec_fn(WorkspaceView) -> bool,
) -> Option<(int, int)> {
    match search::first_index(displays, some_workspace(p)) {
        Some(d) => Some((d, search::first_index(displays[d].workspaces, p)->0)),
        None => None,
    }
}

/// What [`find_workspace`] finds is there, and satisfies `p`.
pub proof fn lemma_find_workspace(displays: Seq<DisplayView>, p: spec_fn(WorkspaceView) -> bool)
    ensures
        find_workspace(displays, p) matches Some((d, w)) ==> {
            &&& search::is_first(displays, some_workspace(p), d)
            &&& search::is_first(displays[d].workspaces, p, w)
        },
        find_workspace(displays, p) is None ==> forall|d: int, w: int|
            0 <= d < displays.len() && 0 <= w < displays[d].workspaces.len() ==> !p(
                #[trigger] displays[d].workspaces[w],
            ),
{
    search::lemma_first_index_meaning(displays, some_workspace(p));
    match find_workspace(displays, p) {
        Some((d, w)) => {
            let k = choose|k: int|
                0 <= k < displays[d].workspaces.len() && p(#[trigger] displays[d].workspaces[k]);
            search::lemma_some_first_index(displays[d].workspaces, p, k);
        },
        None => {
            assert forall|d: int, w: int|
                0 <= d < displays.len() && 0 <= w < displays[d].workspaces.len() implies !p(
                #[trigger] displays[d].workspaces[w],
            ) by {
                assert(!some_workspace(p)(displays[d]));
            }
        },
    }
}

/// The tree with another workspace in one place.
pub open spec fn with_workspace(
    displays: Seq<DisplayView>,
    d: int,
    w: int,
    workspace: WorkspaceView,
) -> Seq<DisplayView> {
    displays.update(
        d,
        DisplayView { workspaces: displays[d].workspaces.update(w, workspace), ..displays[d] },
    )
}

/// Where the first workspace that passes `test` is.
pub(crate) fn locate<F: Fn(&WorkspaceSet) -> bool>(
    displays: &Vec<DisplaySet>,
    test: &F,
    Ghost(p): Ghost<spec_fn(WorkspaceView) -> bool>,
) -> (found: Option<(usize, usize)>)
    requires
        forall|w: &WorkspaceSet| #[trigger] call_requires(*test, (w,)),
        forall|w: &WorkspaceSet, b: bool| #[trigger] call_ensures(*test, (w,), b) ==> b == p(w@),
    ensures
        found is None <==> find_workspace(windowset::displays_view(displays@), p) is None,
        found matches Some((d, w)) ==> {
            &&& find_workspace(windowset::displays_view(displays@), p) == Some((d as int, w as int))
            &&& d < displays.len()
            &&& w < displays@[d as int].workspaces.len()
            &&& p(displays@[d as int].workspaces@[w as int]@)
        },
{
    let ghost view = windowset::displays_view(displays@);
    let mut d: usize = 0;
    while d < displays.len()
        invariant
            d <= displays.len(),
            view == windowset::displays_view(displays@),
            forall|w: &WorkspaceSet| #[trigger] call_requires(*test, (w,)),
            forall|w: &WorkspaceSet, b: bool| #[trigger]
                call_ensures(*test, (w,), b) ==> b == p(w@),
            forall|j: int| 0 <= j < d ==> !some_workspace(p)(#[trigger] view[j]),
        decreases displays.len() - d,
    {
        let display = &displays[d];
        assert(view[d as int] == display@);
        let mut w: usize = 0;
        while w < display.workspaces.len()
            invariant
                d < displays.len(),
                display == displays@[d as int],
                view[d as int] == display@,
                view == windowset::displays_view(displays@),
                w <= display.workspaces.len(),
                forall|w: &WorkspaceSet| #[trigger] call_requires(*test, (w,)),
                forall|w: &WorkspaceSet, b: bool| #[trigger]
                    call_ensures(*test, (w,), b) ==> b == p(w@),
                forall|j: int| 0 <= j < d ==> !some_workspace(p)(#[trigger] view[j]),
                forall|j: int| 0 <= j < w ==> !p(#[trigger] display@.workspaces[j]),
            decreases display.workspaces.len() - w,
        {
            assert(display@.workspaces[w as int] == display.workspaces@[w as int]@);
            if test(&display.workspaces[w]) {
                proof {
                    search::lemma_first_index(display@.workspaces, p, w as int);
                    search::lemma_first_index(view, some_workspace(p), d as int);
                }
                return Some((d, w));
            }
            w = w + 1;
        }
        d = d + 1;
    }
    proof {
        search::lemma_no_first_index(view, some_workspace(p));
    }
    None
}

/// Puts another workspace in one place.
pub(crate) fn replace_workspace(
    displays: &Vec<DisplaySet>,
    d: usize,
    w: usize,
    workspace: WorkspaceSet,
) -> (changed: Vec<DisplaySet>)
    requires
        d < displays.len(),
        w < displays@[d as int].workspaces.len(),
    ensures
        windowset::displays_view(changed@) == with_workspace(
            windowset::displays_view(displays@),
            d as int,
            w as int,
            workspace@,
        ),
{
    let display = &displays[d];
    let mut workspaces: Vec<WorkspaceSet> = Vec::new();
    let mut j: usize = 0;
    while j < display.workspaces.len()
        invariant
            j <= display.workspaces.len(),
            workspaces.len() == j,
            forall|k: int| 0 <= k < j ==> #[trigger] workspaces@[k] == display.workspaces@[k],
        decreases display.workspaces.len() - j,
    {
        workspaces.push(display.workspaces[j].clone());
        j = j + 1;
    }
    workspaces.set(w, workspace);
    let replaced = DisplaySet {
        id: display.id,
        frame: display.frame,
        active: display.active,
        workspaces: Rc::new(workspaces),
    };
    let mut changed: Vec<DisplaySet> = Vec::new();
    let mut i: usize = 0;
    while i < displays.len()
        invariant
            i <= displays.len(),
            changed.len() == i,
            forall|k: int| 0 <= k < i ==> #[trigger] changed@[k] == displays@[k],
        decreases displays.len() - i,
    {
        changed.push(displays[i].clone());
        i = i + 1;
    }
    assert(replaced@.workspaces =~= display@.workspaces.update(w as int, workspace@));
    changed.set(d, replaced);
    assert(windowset::displays_view(changed@) =~= with_workspace(
        windowset::displays_view(displays@),
        d as int,
        w as int,
        workspace@,
    ));
    changed
}

// ---------------------------------------------------------------------------
// Taking a window out
// ---------------------------------------------------------------------------
impl WorkspaceView {
    /// The window that leaves when this id is asked for: the first tiled one
    /// with it, else the first floating one.
    pub open spec fn taken(self, id: WinID) -> WindowRec {
        match self.column_of(id) {
            Some(c) => search::first_where(self.columns[c].windows, windowset::has_id(id))->0,
            None => search::first_where(self.floating, windowset::has_id(id))->0,
        }
    }

    /// The workspace once that window has left, with no empty column behind.
    pub open spec fn without(self, id: WinID) -> WorkspaceView {
        match self.column_of(id) {
            Some(c) => {
                let at = search::first_index(self.columns[c].windows, windowset::has_id(id))->0;
                WorkspaceView {
                    columns: if self.columns[c].windows.len() == 1 {
                        self.columns.remove(c)
                    } else {
                        self.columns.update(c, self.columns[c].without(at))
                    },
                    ..self
                }
            },
            None => {
                let at = search::first_index(self.floating, windowset::has_id(id))->0;
                WorkspaceView { floating: self.floating.remove(at), ..self }
            },
        }
    }
}

/// The workspaces that hold this window.
pub open spec fn holder(id: WinID) -> spec_fn(WorkspaceView) -> bool {
    |w: WorkspaceView| w.holds(id)
}

/// The window with this id and the tree without it, or nothing where no
/// workspace holds it.
pub open spec fn take_window(displays: Seq<DisplayView>, id: WinID) -> Option<
    (WindowRec, Seq<DisplayView>),
> {
    match find_workspace(displays, holder(id)) {
        Some((d, w)) => {
            let workspace = displays[d].workspaces[w];
            Some((workspace.taken(id), with_workspace(displays, d, w, workspace.without(id))))
        },
        None => None,
    }
}

/// A list of windows without the one at `at`.
fn all_but(windows: &Vec<WindowRec>, at: usize) -> (left: Vec<WindowRec>)
    requires
        at < windows.len(),
    ensures
        left@ == windows@.remove(at as int),
{
    let mut left: Vec<WindowRec> = Vec::new();
    let mut i: usize = 0;
    while i < windows.len()
        invariant
            i <= windows.len(),
            at < windows.len(),
            left@ == if i <= at {
                windows@.take(i as int)
            } else {
                windows@.take(i as int).remove(at as int)
            },
        decreases windows.len() - i,
    {
        if i != at {
            left.push(windows[i].clone());
        }
        proof {
            let grown = windows@.take(i + 1);
            assert(grown =~= windows@.take(i as int).push(windows@[i as int]));
            if i == at {
                assert(grown.remove(at as int) =~= windows@.take(i as int));
            } else if i > at {
                assert(grown.remove(at as int) =~= windows@.take(i as int).remove(at as int).push(
                    windows@[i as int],
                ));
            }
        }
        i = i + 1;
    }
    assert(windows@.take(i as int) =~= windows@);
    left
}

impl WorkspaceSet {
    /// Takes a window out of the workspace.
    fn take(&self, id: WinID) -> (taken: (WindowRec, WorkspaceSet))
        requires
            self@.holds(id),
        ensures
            taken.0 == self@.taken(id),
            taken.1@ == self@.without(id),
    {
        match self.column_of(id) {
            Some(c) => {
                let column = &self.columns[c];
                assert(self@.columns[c as int] == column@);
                assert(column@.holds(id));
                let at: usize = match position(&column.windows, id) {
                    Some(at) => at,
                    None => {
                        assert(false);
                        0
                    },
                };
                let record = column.windows[at].clone();
                let left = all_but(&column.windows, at);
                let mut columns: Vec<ColumnSet> = Vec::new();
                let mut i: usize = 0;
                while i < self.columns.len()
                    invariant
                        i <= self.columns.len(),
                        columns.len() == i,
                        forall|k: int| 0 <= k < i ==> #[trigger] columns@[k] == self.columns@[k],
                    decreases self.columns.len() - i,
                {
                    columns.push(self.columns[i].clone());
                    i = i + 1;
                }
                assert(columns@ =~= self.columns@);
                if left.len() == 0 {
                    let emptied = columns.remove(c);
                } else {
                    let selected: usize = if column.selected <= left.len() - 1 {
                        column.selected
                    } else {
                        left.len() - 1
                    };
                    let kind = if left.len() == 1 {
                        ColumnKind::Single
                    } else {
                        column.kind
                    };
                    columns.set(
                        c,
                        ColumnSet {
                            kind,
                            width_ratio: column.width_ratio,
                            selected,
                            windows: Rc::new(left),
                        },
                    );
                }
                let workspace = WorkspaceSet {
                    number: self.number,
                    native_id: self.native_id,
                    active: self.active,
                    columns: Rc::new(columns),
                    floating: share(&self.floating),
                };
                assert(workspace@.columns =~= self@.without(id).columns);
                (record, workspace)
            },
            None => {
                let at: usize = match position(&self.floating, id) {
                    Some(at) => at,
                    None => {
                        assert(false);
                        0
                    },
                };
                let record = self.floating[at].clone();
                let workspace = WorkspaceSet {
                    number: self.number,
                    native_id: self.native_id,
                    active: self.active,
                    columns: share(&self.columns),
                    floating: Rc::new(all_but(&self.floating, at)),
                };
                (record, workspace)
            },
        }
    }

    /// The workspace with a new column for this window at its right end.
    pub(crate) fn with_column(&self, record: WindowRec, ratio: Number) -> (grown: WorkspaceSet)
        ensures
            grown@ == (WorkspaceView {
                columns: self@.columns.push(ColumnView::single(record, ratio)),
                ..self@
            }),
    {
        let mut columns: Vec<ColumnSet> = Vec::new();
        let mut i: usize = 0;
        while i < self.columns.len()
            invariant
                i <= self.columns.len(),
                columns.len() == i,
                forall|k: int| 0 <= k < i ==> #[trigger] columns@[k] == self.columns@[k],
            decreases self.columns.len() - i,
        {
            columns.push(self.columns[i].clone());
            i = i + 1;
        }
        assert(columns@ =~= self.columns@);
        columns.push(ColumnSet::single(record, ratio));
        let grown = WorkspaceSet {
            number: self.number,
            native_id: self.native_id,
            active: self.active,
            columns: Rc::new(columns),
            floating: share(&self.floating),
        };
        assert(grown@.columns =~= self@.columns.push(ColumnView::single(record, ratio)));
        grown
    }

    /// The workspace with this window floating above the others.
    pub(crate) fn with_floating(&self, record: WindowRec) -> (grown: WorkspaceSet)
        ensures
            grown@ == (WorkspaceView { floating: self@.floating.push(record), ..self@ }),
    {
        let mut floating: Vec<WindowRec> = Vec::new();
        let mut i: usize = 0;
        while i < self.floating.len()
            invariant
                i <= self.floating.len(),
                floating@ == self.floating@.take(i as int),
            decreases self.floating.len() - i,
        {
            floating.push(self.floating[i].clone());
            assert(self.floating@.take(i + 1) =~= self.floating@.take(i as int).push(
                self.floating@[i as int],
            ));
            i = i + 1;
        }
        assert(self.floating@.take(i as int) =~= self.floating@);
        floating.push(record);
        WorkspaceSet {
            number: self.number,
            native_id: self.native_id,
            active: self.active,
            columns: share(&self.columns),
            floating: Rc::new(floating),
        }
    }

    /// The workspace with this window at the end of column `c`, which becomes
    /// a stack or tabs.
    pub(crate) fn with_stacked(&self, c: usize, record: WindowRec, kind: ColumnKind) -> (grown:
        WorkspaceSet)
        requires
            c < self.columns.len(),
        ensures
            grown@ == (WorkspaceView {
                columns: self@.columns.update(
                    c as int,
                    ColumnView {
                        kind,
                        windows: self@.columns[c as int].windows.push(record),
                        ..self@.columns[c as int]
                    },
                ),
                ..self@
            }),
    {
        let column = &self.columns[c];
        let mut windows: Vec<WindowRec> = Vec::new();
        let mut i: usize = 0;
        while i < column.windows.len()
            invariant
                i <= column.windows.len(),
                windows@ == column.windows@.take(i as int),
            decreases column.windows.len() - i,
        {
            windows.push(column.windows[i].clone());
            assert(column.windows@.take(i + 1) =~= column.windows@.take(i as int).push(
                column.windows@[i as int],
            ));
            i = i + 1;
        }
        assert(column.windows@.take(i as int) =~= column.windows@);
        windows.push(record);
        let mut columns: Vec<ColumnSet> = Vec::new();
        let mut j: usize = 0;
        while j < self.columns.len()
            invariant
                j <= self.columns.len(),
                columns.len() == j,
                forall|k: int| 0 <= k < j ==> #[trigger] columns@[k] == self.columns@[k],
            decreases self.columns.len() - j,
        {
            columns.push(self.columns[j].clone());
            j = j + 1;
        }
        columns.set(
            c,
            ColumnSet {
                kind,
                width_ratio: column.width_ratio,
                selected: column.selected,
                windows: Rc::new(windows),
            },
        );
        let grown = WorkspaceSet {
            number: self.number,
            native_id: self.native_id,
            active: self.active,
            columns: Rc::new(columns),
            floating: share(&self.floating),
        };
        assert(grown@.columns =~= self@.columns.update(
            c as int,
            ColumnView {
                kind,
                windows: self@.columns[c as int].windows.push(record),
                ..self@.columns[c as int]
            },
        ));
        grown
    }
}

/// Removes a window from wherever it is, leaving no empty column behind, and
/// hands it back for the caller to place somewhere else.
pub(crate) fn take(displays: &Vec<DisplaySet>, id: WinID) -> (taken: Option<
    (WindowRec, Vec<DisplaySet>),
>)
    ensures
        taken is None <==> take_window(windowset::displays_view(displays@), id) is None,
        taken matches Some((record, rest)) ==> take_window(windowset::displays_view(displays@), id) == Some(
            (record, windowset::displays_view(rest@)),
        ),
{
    let ghost p = holder(id);
    let held = |w: &WorkspaceSet| -> (b: bool)
        ensures
            b == w@.holds(id),
        { w.holds(id) };
    match locate(displays, &held, Ghost(p)) {
        Some((d, w)) => {
            let (record, workspace) = displays[d].workspaces[w].take(id);
            let rest = replace_workspace(displays, d, w, workspace);
            Some((record, rest))
        },
        None => None,
    }
}

/// Sets the width of every column that holds the window.
pub open spec fn widen(id: WinID, ratio: Number) -> spec_fn(ColumnView) -> ColumnView {
    |c: ColumnView|
        if c.holds(id) {
            ColumnView { width_ratio: ratio, ..c }
        } else {
            c
        }
}

/// Sets the width of every column that holds the window.
pub(crate) fn set_width(displays: &Vec<DisplaySet>, id: WinID, ratio: Number) -> (changed: Vec<
    DisplaySet,
>)
    ensures
        windowset::displays_view(changed@) == map_columns(windowset::displays_view(displays@), widen(id, ratio)),
{
    let ghost f = widen(id, ratio);
    let mut changed: Vec<DisplaySet> = Vec::new();
    let mut d: usize = 0;
    while d < displays.len()
        invariant
            d <= displays.len(),
            f == widen(id, ratio),
            changed.len() == d,
            forall|j: int|
                0 <= j < d ==> (#[trigger] changed@[j])@ == map_columns(
                    windowset::displays_view(displays@),
                    f,
                )[j],
        decreases displays.len() - d,
    {
        let display = &displays[d];
        let mut workspaces: Vec<WorkspaceSet> = Vec::new();
        let mut w: usize = 0;
        while w < display.workspaces.len()
            invariant
                w <= display.workspaces.len(),
                f == widen(id, ratio),
                workspaces.len() == w,
                forall|j: int|
                    0 <= j < w ==> (#[trigger] workspaces@[j])@ == (WorkspaceView {
                        columns: display.workspaces@[j]@.columns.map_values(f),
                        ..display.workspaces@[j]@
                    }),
            decreases display.workspaces.len() - w,
        {
            let workspace = &display.workspaces[w];
            let mut columns: Vec<ColumnSet> = Vec::new();
            let mut c: usize = 0;
            while c < workspace.columns.len()
                invariant
                    c <= workspace.columns.len(),
                    f == widen(id, ratio),
                    columns.len() == c,
                    forall|j: int|
                        0 <= j < c ==> (#[trigger] columns@[j])@ == f(workspace.columns@[j]@),
                decreases workspace.columns.len() - c,
            {
                let column = &workspace.columns[c];
                let mut copy = column.clone();
                if column.holds(id) {
                    copy.width_ratio = ratio;
                }
                columns.push(copy);
                c = c + 1;
            }
            let widened = WorkspaceSet {
                number: workspace.number,
                native_id: workspace.native_id,
                active: workspace.active,
                columns: Rc::new(columns),
                floating: share(&workspace.floating),
            };
            assert(widened@.columns =~= workspace@.columns.map_values(f));
            workspaces.push(widened);
            w = w + 1;
        }
        let widened = DisplaySet {
            id: display.id,
            frame: display.frame,
            active: display.active,
            workspaces: Rc::new(workspaces),
        };
        assert(widened@.workspaces =~= map_columns(windowset::displays_view(displays@), f)[d as int].workspaces);
        changed.push(widened);
        d = d + 1;
    }
    assert(windowset::displays_view(changed@) =~= map_columns(windowset::displays_view(displays@), f));
    changed
}

} // verus!
