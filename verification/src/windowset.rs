//! A window layout as a pure value.
//!
//! A [`WindowSet`] is a photograph of the layout that a script can transform
//! freely: every operation returns a new value instead of changing the one it
//! was given, and records what it meant as a [`LayoutOp`] on the value that it
//! returns. The host replays those intents against the live windows.
//!
//! Every level of the tree is behind an [`Rc`], so cloning a value copies
//! nothing, and a transform copies only the spine that it touches.
//!
//! The contracts speak of the tree through its view: displays hold workspaces,
//! a workspace holds columns and floating windows, a column holds windows.
use std::rc::Rc;

use vstd::prelude::*;

use crate::number::Number;
use crate::search;
use crate::state::Frame;

pub mod edit;
pub mod equal;
pub mod laws;

verus! {

/// A window's id, as the accessibility layer reports it.
pub type WinID = i32;

/// What a transform meant, as opposed to what it did to the tree.
#[derive(Clone, Copy, Debug, PartialEq)]
pub enum LayoutOp {
    /// Give the window the focus.
    Focus(WinID),
    /// Exchange the two windows' positions in the layout.
    Swap(WinID, WinID),
    /// Send the window to a virtual workspace, optionally following it there.
    MoveToWorkspace { window: WinID, workspace: u32, follow: bool },
    /// Show a virtual workspace on its display.
    View { workspace: u32 },
    /// Take the window out of the tiling layout, or put it back in.
    SetFloating { window: WinID, floating: bool },
    /// Let the window manager lay the window out, or stop doing so.
    SetManaged { window: WinID, managed: bool },
    /// Set the column width that the window occupies, as a fraction of the display.
    SetWidth { window: WinID, ratio: Number },
    /// Put the window into the column of `onto`, as a stack entry or a tab.
    Stack { window: WinID, onto: WinID, tabs: bool },
    /// Give the window a column of its own again.
    Unstack(WinID),
}

impl LayoutOp {
    /// The window this op acts on: `None` exactly for an op that acts on a
    /// workspace as a whole.
    pub open spec fn spec_target(self) -> Option<WinID> {
        match self {
            LayoutOp::Focus(window) => Some(window),
            LayoutOp::Swap(window, _) => Some(window),
            LayoutOp::MoveToWorkspace { window, .. } => Some(window),
            LayoutOp::View { .. } => None,
            LayoutOp::SetFloating { window, .. } => Some(window),
            LayoutOp::SetManaged { window, .. } => Some(window),
            LayoutOp::SetWidth { window, .. } => Some(window),
            LayoutOp::Stack { window, .. } => Some(window),
            LayoutOp::Unstack(window) => Some(window),
        }
    }

    /// The window this op acts on, if it names one. `None` for ops that act on
    /// a workspace as a whole.
    pub fn target(&self) -> (target: Option<WinID>)
        ensures
            target == self.spec_target(),
            target is None <==> *self is View,
    {
        match *self {
            LayoutOp::Focus(window) => Some(window),
            LayoutOp::Swap(window, _) => Some(window),
            LayoutOp::Unstack(window) => Some(window),
            LayoutOp::MoveToWorkspace { window, .. } => Some(window),
            LayoutOp::SetFloating { window, .. } => Some(window),
            LayoutOp::SetManaged { window, .. } => Some(window),
            LayoutOp::SetWidth { window, .. } => Some(window),
            LayoutOp::Stack { window, .. } => Some(window),
            LayoutOp::View { .. } => None,
        }
    }
}

/// One link of the recorded op list, most recent first.
///
/// Two values branched off one parent get independent tails without copying
/// the part that they share.
#[derive(Debug)]
struct OpNode {
    op: LayoutOp,
    prev: Option<Rc<OpNode>>,
}

/// The ops of a list, oldest first.
spec fn ops_of(node: Option<Rc<OpNode>>) -> Seq<LayoutOp>
    decreases node,
{
    match node {
        None => Seq::empty(),
        Some(link) => ops_of(link.prev).push(link.op),
    }
}

/// How a column arranges the windows in it.
#[derive(Clone, Copy, Debug, PartialEq, Eq, Structural)]
pub enum ColumnKind {
    /// One window filling the column.
    Single,
    /// Windows stacked vertically, all visible.
    Stack,
    /// Windows sharing the column, one visible at a time.
    Tabs,
    /// One window covering the display.
    Fullscreen,
}

/// One window, as a script sees it.
#[derive(Debug)]
pub struct WindowRec {
    pub id: WinID,
    pub app_name: String,
    pub bundle_id: String,
    pub title: String,
    /// Where it is now, in global display coordinates, when known.
    pub frame: Option<Frame>,
    /// Outside the tiling layout, positioned by hand.
    pub floating: bool,
    /// Laid out by the window manager at all.
    pub managed: bool,
    /// More than a sliver of it is actually showing.
    pub visible: bool,
    pub focused: bool,
}

impl Clone for WindowRec {
    fn clone(&self) -> (copy: Self)
        ensures
            copy == *self,
    {
        WindowRec {
            id: self.id,
            app_name: self.app_name.clone(),
            bundle_id: self.bundle_id.clone(),
            title: self.title.clone(),
            frame: self.frame,
            floating: self.floating,
            managed: self.managed,
            visible: self.visible,
            focused: self.focused,
        }
    }
}

/// One column of a workspace's layout strip.
#[derive(Debug)]
pub struct ColumnSet {
    pub kind: ColumnKind,
    /// Width as a fraction of the display, as the layout engine has it.
    pub width_ratio: Number,
    /// Which of `windows` is on top, for tabs and stacks.
    pub selected: usize,
    pub windows: Rc<Vec<WindowRec>>,
}

/// One virtual workspace: an ordered strip of columns, plus whatever floats
/// above it.
#[derive(Debug)]
pub struct WorkspaceSet {
    /// The virtual workspace number a script addresses it by.
    pub number: u32,
    /// The native space it lives on.
    pub native_id: u64,
    /// Whether it is the one currently shown on its display.
    pub active: bool,
    pub columns: Rc<Vec<ColumnSet>>,
    pub floating: Rc<Vec<WindowRec>>,
}

/// One display and the workspaces on it.
#[derive(Debug)]
pub struct DisplaySet {
    pub id: u32,
    pub frame: Frame,
    /// Whether it holds the focus.
    pub active: bool,
    pub workspaces: Rc<Vec<WorkspaceSet>>,
}

/// The whole layout, as a value.
#[derive(Debug)]
pub struct WindowSet {
    displays: Rc<Vec<DisplaySet>>,
    focused: Option<WinID>,
    /// What has been asked of this value, most recent first. Not part of the
    /// layout, and not compared: two window sets are equal when they describe
    /// the same layout, however they got there.
    ops: Option<Rc<OpNode>>,
}

// ---------------------------------------------------------------------------
// The tree as mathematics
// ---------------------------------------------------------------------------
/// What a [`ColumnSet`] holds.
#[verifier::ext_equal]
pub struct ColumnView {
    pub kind: ColumnKind,
    pub width_ratio: Number,
    pub selected: int,
    pub windows: Seq<WindowRec>,
}

/// What a [`WorkspaceSet`] holds.
#[verifier::ext_equal]
pub struct WorkspaceView {
    pub number: u32,
    pub native_id: u64,
    pub active: bool,
    pub columns: Seq<ColumnView>,
    pub floating: Seq<WindowRec>,
}

/// What a [`DisplaySet`] holds.
#[verifier::ext_equal]
pub struct DisplayView {
    pub id: u32,
    pub frame: Frame,
    pub active: bool,
    pub workspaces: Seq<WorkspaceView>,
}

/// What a [`WindowSet`] holds: the layout, and the ops recorded on it, oldest
/// first.
#[verifier::ext_equal]
pub struct WindowSetView {
    pub displays: Seq<DisplayView>,
    pub focused: Option<WinID>,
    pub ops: Seq<LayoutOp>,
}

impl View for ColumnSet {
    type V = ColumnView;

    open spec fn view(&self) -> ColumnView {
        ColumnView {
            kind: self.kind,
            width_ratio: self.width_ratio,
            selected: self.selected as int,
            windows: self.windows@,
        }
    }
}

impl View for WorkspaceSet {
    type V = WorkspaceView;

    open spec fn view(&self) -> WorkspaceView {
        WorkspaceView {
            number: self.number,
            native_id: self.native_id,
            active: self.active,
            columns: self.columns@.map_values(|c: ColumnSet| c@),
            floating: self.floating@,
        }
    }
}

impl View for DisplaySet {
    type V = DisplayView;

    open spec fn view(&self) -> DisplayView {
        DisplayView {
            id: self.id,
            frame: self.frame,
            active: self.active,
            workspaces: self.workspaces@.map_values(|w: WorkspaceSet| w@),
        }
    }
}

/// The view of a list of displays.
pub open spec fn displays_view(displays: Seq<DisplaySet>) -> Seq<DisplayView> {
    displays.map_values(|d: DisplaySet| d@)
}

impl WindowSet {
    /// The value as mathematics.
    pub closed spec fn model(&self) -> WindowSetView {
        WindowSetView {
            displays: displays_view(self.displays@),
            focused: self.focused,
            ops: ops_of(self.ops),
        }
    }
}

/// The window in question.
pub open spec fn has_id(id: WinID) -> spec_fn(WindowRec) -> bool {
    |window: WindowRec| window.id == id
}

/// Some window of the sequence has this id.
pub open spec fn some_has_id(windows: Seq<WindowRec>, id: WinID) -> bool {
    exists|i: int| 0 <= i < windows.len() && (#[trigger] windows[i]).id == id
}

impl ColumnView {
    /// Some window of the column has this id.
    pub open spec fn holds(self, id: WinID) -> bool {
        some_has_id(self.windows, id)
    }

    /// The window on top: the selected one, or the first where the selection
    /// points nowhere.
    pub open spec fn top(self) -> Option<WindowRec> {
        if 0 <= self.selected < self.windows.len() {
            Some(self.windows[self.selected])
        } else if self.windows.len() > 0 {
            Some(self.windows[0])
        } else {
            None
        }
    }

    /// A column holding one window.
    pub open spec fn single(window: WindowRec, width_ratio: Number) -> ColumnView {
        ColumnView { kind: ColumnKind::Single, width_ratio, selected: 0, windows: seq![window] }
    }

    /// The column once the window at `at` has left it: the selection stays in
    /// range, and what is left alone is single.
    pub open spec fn without(self, at: int) -> ColumnView {
        let left = self.windows.remove(at);
        ColumnView {
            kind: if left.len() == 1 {
                ColumnKind::Single
            } else {
                self.kind
            },
            width_ratio: self.width_ratio,
            selected: if self.selected <= left.len() - 1 {
                self.selected
            } else {
                left.len() - 1
            },
            windows: left,
        }
    }
}

impl WorkspaceView {
    /// Some column of the workspace holds this id.
    pub open spec fn tiles(self, id: WinID) -> bool {
        exists|c: int| 0 <= c < self.columns.len() && (#[trigger] self.columns[c]).holds(id)
    }

    /// The window is on the workspace, tiled or floating.
    pub open spec fn holds(self, id: WinID) -> bool {
        self.tiles(id) || some_has_id(self.floating, id)
    }

    /// Every tiled window, column by column.
    pub open spec fn tiled(self) -> Seq<WindowRec> {
        self.columns.map_values(|c: ColumnView| c.windows).flatten()
    }

    /// Every window on the workspace, tiled first, then floating.
    pub open spec fn windows(self) -> Seq<WindowRec> {
        self.tiled() + self.floating
    }

    /// The index of the first column holding this id.
    pub open spec fn column_of(self, id: WinID) -> Option<int> {
        search::first_index(self.columns, |c: ColumnView| c.holds(id))
    }
}

impl DisplayView {
    /// The window is on one of the display's workspaces.
    pub open spec fn holds(self, id: WinID) -> bool {
        exists|w: int| 0 <= w < self.workspaces.len() && (#[trigger] self.workspaces[w]).holds(id)
    }

    /// One of the display's workspaces has this number.
    pub open spec fn has_number(self, number: u32) -> bool {
        exists|w: int|
            0 <= w < self.workspaces.len() && (#[trigger] self.workspaces[w]).number == number
    }
}

/// Every workspace, display by display.
pub open spec fn all_workspaces(displays: Seq<DisplayView>) -> Seq<WorkspaceView> {
    displays.map_values(|d: DisplayView| d.workspaces).flatten()
}

/// What a reference to a workspace, if there is one, refers to.
pub open spec fn workspace_view(workspace: Option<&WorkspaceSet>) -> Option<WorkspaceView> {
    match workspace {
        Some(w) => Some(w@),
        None => None,
    }
}

/// What a reference to a display, if there is one, refers to.
pub open spec fn display_view(display: Option<&DisplaySet>) -> Option<DisplayView> {
    match display {
        Some(d) => Some(d@),
        None => None,
    }
}

/// What a reference to a window, if there is one, refers to.
pub open spec fn window_view(window: Option<&WindowRec>) -> Option<WindowRec> {
    match window {
        Some(w) => Some(*w),
        None => None,
    }
}

/// Every window, workspace by workspace.
pub open spec fn all_windows(displays: Seq<DisplayView>) -> Seq<WindowRec> {
    all_workspaces(displays).map_values(|w: WorkspaceView| w.windows()).flatten()
}

impl WindowSetView {
    /// The first window with this id.
    pub open spec fn window(self, id: WinID) -> Option<WindowRec> {
        search::first_where(all_windows(self.displays), has_id(id))
    }

    /// The first workspace with this number.
    pub open spec fn workspace(self, number: u32) -> Option<WorkspaceView> {
        search::first_where(all_workspaces(self.displays), |w: WorkspaceView| w.number == number)
    }

    /// The active display, or the first one where none is active.
    pub open spec fn current_display(self) -> Option<DisplayView> {
        match search::first_where(self.displays, |d: DisplayView| d.active) {
            Some(display) => Some(display),
            None => if self.displays.len() > 0 {
                Some(self.displays[0])
            } else {
                None
            },
        }
    }

    /// The active workspace of the current display.
    pub open spec fn current(self) -> Option<WorkspaceView> {
        match self.current_display() {
            Some(display) => search::first_where(
                display.workspaces,
                |w: WorkspaceView| w.active,
            ),
            None => None,
        }
    }

    /// The first display holding this window.
    pub open spec fn display_of(self, id: WinID) -> Option<DisplayView> {
        search::first_where(self.displays, |d: DisplayView| d.holds(id))
    }

    /// The first workspace holding this window.
    pub open spec fn workspace_of(self, id: WinID) -> Option<WorkspaceView> {
        search::first_where(all_workspaces(self.displays), |w: WorkspaceView| w.holds(id))
    }

    /// Which column of its workspace holds this window.
    pub open spec fn column_of(self, id: WinID) -> Option<int> {
        match self.workspace_of(id) {
            Some(workspace) => workspace.column_of(id),
            None => None,
        }
    }

    /// The top window of the column `offset` columns to the right of this
    /// window's own.
    pub open spec fn neighbour(self, id: WinID, offset: int) -> Option<WinID> {
        match self.column_of(id) {
            Some(column) => {
                let columns = self.workspace_of(id)->0.columns;
                if 0 <= column + offset < columns.len() && columns[column + offset].top() is Some {
                    Some(columns[column + offset].top()->0.id)
                } else {
                    None
                }
            },
            None => None,
        }
    }

    /// The window `offset` places further in the order of its workspace,
    /// wrapping around.
    pub open spec fn cycle(self, id: WinID, offset: int) -> Option<WinID> {
        match self.workspace_of(id) {
            Some(workspace) => {
                let windows = workspace.windows();
                let at = search::first_index(windows, has_id(id))->0;
                Some(windows[(at + offset) % windows.len() as int].id)
            },
            None => None,
        }
    }
}

/// A sequence of columns, flattened, holds an id exactly where a column does.
proof fn lemma_tiled_holds(columns: Seq<ColumnView>, id: WinID)
    ensures
        some_has_id(columns.map_values(|c: ColumnView| c.windows).flatten(), id) <==> exists|c: int|
            0 <= c < columns.len() && (#[trigger] columns[c]).holds(id),
    decreases columns.len(),
{
    let f = |c: ColumnView| c.windows;
    let all = columns.map_values(f).flatten();
    if columns.len() == 0 {
        assert(columns.map_values(f) =~= Seq::empty());
    } else {
        let head = columns.drop_last();
        let last = columns.last();
        lemma_tiled_holds(head, id);
        assert(columns.map_values(f) =~= head.map_values(f).push(last.windows));
        head.map_values(f).lemma_flatten_push(last.windows);
        let front = head.map_values(f).flatten();
        assert(all =~= front + last.windows);
        if some_has_id(all, id) {
            let i = choose|i: int| 0 <= i < all.len() && (#[trigger] all[i]).id == id;
            if i < front.len() {
                assert(front[i].id == id);
                let c = choose|c: int| 0 <= c < head.len() && (#[trigger] head[c]).holds(id);
                assert(columns[c].holds(id));
            } else {
                assert(last.windows[i - front.len()].id == id);
                assert(columns[columns.len() - 1].holds(id));
            }
        }
        if exists|c: int| 0 <= c < columns.len() && (#[trigger] columns[c]).holds(id) {
            let c = choose|c: int| 0 <= c < columns.len() && (#[trigger] columns[c]).holds(id);
            if c < head.len() {
                assert(head[c].holds(id));
                let i = choose|i: int| 0 <= i < front.len() && (#[trigger] front[i]).id == id;
                assert(all[i].id == id);
            } else {
                let i = choose|i: int|
                    0 <= i < last.windows.len() && (#[trigger] last.windows[i]).id == id;
                assert(all[front.len() + i].id == id);
            }
        }
    }
}

/// A workspace holds a window exactly where its list of windows does.
pub proof fn lemma_workspace_holds(workspace: WorkspaceView, id: WinID)
    ensures
        workspace.holds(id) <==> some_has_id(workspace.windows(), id),
{
    lemma_tiled_holds(workspace.columns, id);
    let tiled = workspace.tiled();
    let all = workspace.windows();
    if some_has_id(all, id) {
        let i = choose|i: int| 0 <= i < all.len() && (#[trigger] all[i]).id == id;
        if i < tiled.len() {
            assert(tiled[i].id == id);
        } else {
            assert(workspace.floating[i - tiled.len()].id == id);
        }
    }
    if some_has_id(tiled, id) {
        let i = choose|i: int| 0 <= i < tiled.len() && (#[trigger] tiled[i]).id == id;
        assert(all[i].id == id);
    }
    if some_has_id(workspace.floating, id) {
        let i = choose|i: int|
            0 <= i < workspace.floating.len() && (#[trigger] workspace.floating[i]).id == id;
        assert(all[tiled.len() + i].id == id);
    }
}

// ---------------------------------------------------------------------------
// Reading
// ---------------------------------------------------------------------------
/// The first index at which a window has this id.
fn position(windows: &Vec<WindowRec>, id: WinID) -> (at: Option<usize>)
    ensures
        at matches Some(i) ==> search::first_index(windows@, has_id(id)) == Some(i as int),
        at matches Some(i) ==> search::is_first(windows@, has_id(id), i as int),
        at is None <==> search::first_index(windows@, has_id(id)) is None,
        at is Some <==> some_has_id(windows@, id),
{
    let mut i: usize = 0;
    while i < windows.len()
        invariant
            i <= windows.len(),
            forall|j: int| 0 <= j < i ==> (#[trigger] windows@[j]).id != id,
        decreases windows.len() - i,
    {
        if windows[i].id == id {
            proof {
                search::lemma_first_index(windows@, has_id(id), i as int);
            }
            return Some(i);
        }
        i = i + 1;
    }
    None
}

impl ColumnSet {
    /// A column holding one window.
    pub fn single(window: WindowRec, width_ratio: Number) -> (column: Self)
        ensures
            column@ == ColumnView::single(window, width_ratio),
    {
        let column = ColumnSet {
            kind: ColumnKind::Single,
            width_ratio,
            selected: 0,
            windows: Rc::new(vec![window]),
        };
        assert(column.windows@ =~= seq![window]);
        column
    }

    /// The window on top: the only one for a `Single`, the selected one
    /// otherwise.
    pub fn top(&self) -> (top: Option<&WindowRec>)
        ensures
            window_view(top) == self@.top(),
    {
        if self.selected < self.windows.len() {
            Some(&self.windows[self.selected])
        } else if self.windows.len() > 0 {
            Some(&self.windows[0])
        } else {
            None
        }
    }

    /// Whether the column holds this window.
    fn holds(&self, id: WinID) -> (held: bool)
        ensures
            held == self@.holds(id),
    {
        position(&self.windows, id).is_some()
    }
}

impl WorkspaceSet {
    /// The index of the first column holding this window.
    fn column_of(&self, id: WinID) -> (at: Option<usize>)
        ensures
            at matches Some(c) ==> self@.column_of(id) == Some(c as int) && c < self.columns.len()
                && search::is_first(self@.columns, |c: ColumnView| c.holds(id), c as int),
            at is None <==> self@.column_of(id) is None,
            at is Some <==> self@.tiles(id),
    {
        let ghost p = |c: ColumnView| c.holds(id);
        let mut c: usize = 0;
        while c < self.columns.len()
            invariant
                c <= self.columns.len(),
                p == (|c: ColumnView| c.holds(id)),
                forall|j: int| 0 <= j < c ==> !(#[trigger] self@.columns[j]).holds(id),
            decreases self.columns.len() - c,
        {
            assert(self@.columns[c as int] == self.columns@[c as int]@);
            if self.columns[c].holds(id) {
                proof {
                    search::lemma_first_index(self@.columns, p, c as int);
                }
                return Some(c);
            }
            c = c + 1;
        }
        proof {
            search::lemma_no_first_index(self@.columns, p);
        }
        None
    }

    /// Whether the window is on the workspace, tiled or floating.
    fn holds(&self, id: WinID) -> (held: bool)
        ensures
            held == self@.holds(id),
    {
        self.column_of(id).is_some() || position(&self.floating, id).is_some()
    }

    /// Every window on the workspace, tiled first then floating.
    pub fn windows(&self) -> (windows: Vec<&WindowRec>)
        ensures
            windows@.map_values(|w: &WindowRec| *w) == self@.windows(),
    {
        let ghost f = |c: ColumnView| c.windows;
        let ghost g = |w: &WindowRec| *w;
        let mut all: Vec<&WindowRec> = Vec::new();
        let mut c: usize = 0;
        assert(all@.map_values(g) =~= self@.columns.take(0).map_values(f).flatten());
        while c < self.columns.len()
            invariant
                c <= self.columns.len(),
                f == (|c: ColumnView| c.windows),
                g == (|w: &WindowRec| *w),
                all@.map_values(g) == self@.columns.take(c as int).map_values(f).flatten(),
            decreases self.columns.len() - c,
        {
            let column = &self.columns[c];
            let ghost before = all@.map_values(g);
            let mut i: usize = 0;
            assert(before + column.windows@.take(0) =~= before);
            while i < column.windows.len()
                invariant
                    i <= column.windows.len(),
                    g == (|w: &WindowRec| *w),
                    all@.map_values(g) == before + column.windows@.take(i as int),
                decreases column.windows.len() - i,
            {
                let ghost earlier = all@;
                all.push(&column.windows[i]);
                assert(all@.map_values(g) =~= earlier.map_values(g).push(column.windows@[i as int]));
                assert(column.windows@.take(i + 1) =~= column.windows@.take(i as int).push(
                    column.windows@[i as int],
                ));
                i = i + 1;
            }
            proof {
                assert(column.windows@.take(i as int) =~= column.windows@);
                let taken = self@.columns.take(c as int);
                assert(self@.columns.take(c + 1) =~= taken.push(column@));
                assert(taken.push(column@).map_values(f) =~= taken.map_values(f).push(
                    column.windows@,
                ));
                taken.map_values(f).lemma_flatten_push(column.windows@);
            }
            c = c + 1;
        }
        assert(self@.columns.take(c as int) =~= self@.columns);
        let ghost tiled = all@.map_values(g);
        let mut i: usize = 0;
        assert(tiled + self.floating@.take(0) =~= tiled);
        while i < self.floating.len()
            invariant
                i <= self.floating.len(),
                g == (|w: &WindowRec| *w),
                all@.map_values(g) == tiled + self.floating@.take(i as int),
            decreases self.floating.len() - i,
        {
            let ghost earlier = all@;
            all.push(&self.floating[i]);
            assert(all@.map_values(g) =~= earlier.map_values(g).push(self.floating@[i as int]));
            assert(self.floating@.take(i + 1) =~= self.floating@.take(i as int).push(
                self.floating@[i as int],
            ));
            i = i + 1;
        }
        assert(self.floating@.take(i as int) =~= self.floating@);
        all
    }
}

impl DisplaySet {
    /// Whether the window is on one of the display's workspaces.
    fn holds(&self, id: WinID) -> (held: bool)
        ensures
            held == self@.holds(id),
    {
        let mut w: usize = 0;
        while w < self.workspaces.len()
            invariant
                w <= self.workspaces.len(),
                forall|j: int| 0 <= j < w ==> !(#[trigger] self@.workspaces[j]).holds(id),
            decreases self.workspaces.len() - w,
        {
            assert(self@.workspaces[w as int] == self.workspaces@[w as int]@);
            if self.workspaces[w].holds(id) {
                return true;
            }
            w = w + 1;
        }
        false
    }
}

/// A sequence has an id exactly where it has a first window with that id.
pub proof fn lemma_some_has_first(windows: Seq<WindowRec>, id: WinID)
    ensures
        some_has_id(windows, id) <==> search::first_index(windows, has_id(id)) is Some,
{
    search::lemma_first_index_meaning(windows, has_id(id));
    if some_has_id(windows, id) {
        let i = choose|i: int| 0 <= i < windows.len() && (#[trigger] windows[i]).id == id;
        search::lemma_some_first_index(windows, has_id(id), i);
    }
}

impl Default for WindowSet {
    /// A layout without displays.
    fn default() -> (set: Self)
        ensures
            set.model() == (WindowSetView {
                displays: Seq::empty(),
                focused: None,
                ops: Seq::empty(),
            }),
    {
        let set = WindowSet { displays: Rc::new(Vec::new()), focused: None, ops: None };
        assert(set.model().displays =~= Seq::empty());
        set
    }
}

impl WindowSet {
    /// Builds a window set from an extracted layout.
    pub fn new(displays: Vec<DisplaySet>, focused: Option<WinID>) -> (set: Self)
        ensures
            set.model().displays == displays_view(displays@),
            set.model().focused == focused,
            set.model().ops == Seq::<LayoutOp>::empty(),
    {
        WindowSet { displays: Rc::new(displays), focused, ops: None }
    }

    /// The displays, in order.
    pub fn displays(&self) -> (displays: &[DisplaySet])
        ensures
            displays_view(displays@) == self.model().displays,
    {
        self.displays.as_slice()
    }

    /// The focused window's id, if anything is focused.
    pub fn focused(&self) -> (focused: Option<WinID>)
        ensures
            focused == self.model().focused,
    {
        self.focused
    }

    /// Every workspace, across every display.
    pub fn workspaces(&self) -> (workspaces: Vec<&WorkspaceSet>)
        ensures
            workspaces@.map_values(|w: &WorkspaceSet| w@) == all_workspaces(self.model().displays),
    {
        let ghost f = |d: DisplayView| d.workspaces;
        let ghost g = |w: &WorkspaceSet| w@;
        let mut all: Vec<&WorkspaceSet> = Vec::new();
        let mut d: usize = 0;
        assert(all@.map_values(g) =~= self.model().displays.take(0).map_values(f).flatten());
        while d < self.displays.len()
            invariant
                d <= self.displays.len(),
                f == (|d: DisplayView| d.workspaces),
                g == (|w: &WorkspaceSet| w@),
                all@.map_values(g) == self.model().displays.take(d as int).map_values(f).flatten(),
            decreases self.displays.len() - d,
        {
            let display = &self.displays[d];
            let ghost before = all@.map_values(g);
            let mut i: usize = 0;
            assert(before + display@.workspaces.take(0) =~= before);
            while i < display.workspaces.len()
                invariant
                    i <= display.workspaces.len(),
                    g == (|w: &WorkspaceSet| w@),
                    all@.map_values(g) == before + display@.workspaces.take(i as int),
                decreases display.workspaces.len() - i,
            {
                let ghost earlier = all@;
                all.push(&display.workspaces[i]);
                assert(all@.map_values(g) =~= earlier.map_values(g).push(
                    display@.workspaces[i as int],
                ));
                assert(display@.workspaces.take(i + 1) =~= display@.workspaces.take(i as int).push(
                    display@.workspaces[i as int],
                ));
                i = i + 1;
            }
            proof {
                assert(display@.workspaces.take(i as int) =~= display@.workspaces);
                let taken = self.model().displays.take(d as int);
                assert(self.model().displays.take(d + 1) =~= taken.push(display@));
                assert(taken.push(display@).map_values(f) =~= taken.map_values(f).push(
                    display@.workspaces,
                ));
                taken.map_values(f).lemma_flatten_push(display@.workspaces);
            }
            d = d + 1;
        }
        assert(self.model().displays.take(d as int) =~= self.model().displays);
        all
    }

    /// Every window known to the layout.
    pub fn windows(&self) -> (windows: Vec<&WindowRec>)
        ensures
            windows@.map_values(|w: &WindowRec| *w) == all_windows(self.model().displays),
    {
        let ghost f = |w: WorkspaceView| w.windows();
        let ghost g = |w: &WindowRec| *w;
        let workspaces = self.workspaces();
        let ghost whole = all_workspaces(self.model().displays);
        let mut all: Vec<&WindowRec> = Vec::new();
        let mut i: usize = 0;
        assert(all@.map_values(g) =~= whole.take(0).map_values(f).flatten());
        while i < workspaces.len()
            invariant
                i <= workspaces.len(),
                workspaces@.map_values(|w: &WorkspaceSet| w@) == whole,
                f == (|w: WorkspaceView| w.windows()),
                g == (|w: &WindowRec| *w),
                all@.map_values(g) == whole.take(i as int).map_values(f).flatten(),
            decreases workspaces.len() - i,
        {
            assert(workspaces@[i as int]@ == workspaces@.map_values(|w: &WorkspaceSet| w@)[i as int]);
            let mut here = workspaces[i].windows();
            let ghost before = all@;
            let ghost shown = here@;
            all.append(&mut here);
            proof {
                assert(all@.map_values(g) =~= before.map_values(g) + shown.map_values(g));
                let taken = whole.take(i as int);
                assert(whole.take(i + 1) =~= taken.push(whole[i as int]));
                assert(taken.push(whole[i as int]).map_values(f) =~= taken.map_values(f).push(
                    whole[i as int].windows(),
                ));
                taken.map_values(f).lemma_flatten_push(whole[i as int].windows());
            }
            i = i + 1;
        }
        assert(whole.take(i as int) =~= whole);
        all
    }

    /// One window by id.
    pub fn window(&self, id: WinID) -> (window: Option<&WindowRec>)
        ensures
            window_view(window) == self.model().window(id),
    {
        let windows = self.windows();
        let ghost whole = all_windows(self.model().displays);
        let mut i: usize = 0;
        while i < windows.len()
            invariant
                i <= windows.len(),
                windows@.map_values(|w: &WindowRec| *w) == whole,
                whole == all_windows(self.model().displays),
                forall|j: int| 0 <= j < i ==> (#[trigger] whole[j]).id != id,
            decreases windows.len() - i,
        {
            assert(*windows@[i as int] == windows@.map_values(|w: &WindowRec| *w)[i as int]);
            if windows[i].id == id {
                proof {
                    search::lemma_first_index(whole, has_id(id), i as int);
                }
                return Some(windows[i]);
            }
            i = i + 1;
        }
        proof {
            assert(whole.len() == windows@.len());
            search::lemma_no_first_index(whole, has_id(id));
        }
        None
    }

    /// The workspace numbered `number`.
    pub fn workspace(&self, number: u32) -> (workspace: Option<&WorkspaceSet>)
        ensures
            workspace_view(workspace) == self.model().workspace(number),
    {
        let workspaces = self.workspaces();
        let ghost whole = all_workspaces(self.model().displays);
        let ghost p = |w: WorkspaceView| w.number == number;
        let mut i: usize = 0;
        while i < workspaces.len()
            invariant
                i <= workspaces.len(),
                workspaces@.map_values(|w: &WorkspaceSet| w@) == whole,
                p == (|w: WorkspaceView| w.number == number),
                whole == all_workspaces(self.model().displays),
                forall|j: int| 0 <= j < i ==> (#[trigger] whole[j]).number != number,
            decreases workspaces.len() - i,
        {
            assert(workspaces@[i as int]@ == workspaces@.map_values(|w: &WorkspaceSet| w@)[i as int]);
            if workspaces[i].number == number {
                proof {
                    search::lemma_first_index(whole, p, i as int);
                }
                return Some(workspaces[i]);
            }
            i = i + 1;
        }
        proof {
            assert(whole.len() == workspaces@.len());
            search::lemma_no_first_index(whole, p);
        }
        None
    }

    /// The active workspace of the active display: "here", for a script.
    pub fn current(&self) -> (workspace: Option<&WorkspaceSet>)
        ensures
            workspace_view(workspace) == self.model().current(),
    {
        if self.displays.len() == 0 {
            proof {
                search::lemma_no_first_index(self.model().displays, |d: DisplayView| d.active);
            }
            return None;
        }
        let mut d: usize = 0;
        let ghost p = |d: DisplayView| d.active;
        while d < self.displays.len() && !self.displays[d].active
            invariant
                d <= self.displays.len(),
                forall|j: int| 0 <= j < d ==> !(#[trigger] self.model().displays[j]).active,
            decreases self.displays.len() - d,
        {
            assert(self.model().displays[d as int] == self.displays@[d as int]@);
            d = d + 1;
        }
        let chosen: usize = if d < self.displays.len() {
            proof {
                assert(self.model().displays[d as int] == self.displays@[d as int]@);
                search::lemma_first_index(self.model().displays, p, d as int);
            }
            d
        } else {
            proof {
                search::lemma_no_first_index(self.model().displays, p);
            }
            0
        };
        let display = &self.displays[chosen];
        assert(self.model().current_display() == Some(display@));
        let ghost q = |w: WorkspaceView| w.active;
        let mut w: usize = 0;
        while w < display.workspaces.len()
            invariant
                w <= display.workspaces.len(),
                q == (|w: WorkspaceView| w.active),
                self.model().current_display() == Some(display@),
                forall|j: int| 0 <= j < w ==> !(#[trigger] display@.workspaces[j]).active,
            decreases display.workspaces.len() - w,
        {
            assert(display@.workspaces[w as int] == display.workspaces@[w as int]@);
            if display.workspaces[w].active {
                proof {
                    search::lemma_first_index(display@.workspaces, q, w as int);
                }
                return Some(&display.workspaces[w]);
            }
            w = w + 1;
        }
        proof {
            search::lemma_no_first_index(display@.workspaces, q);
        }
        None
    }

    /// The display showing `id`.
    pub fn display_of(&self, id: WinID) -> (display: Option<&DisplaySet>)
        ensures
            display_view(display) == self.model().display_of(id),
    {
        let ghost p = |d: DisplayView| d.holds(id);
        let mut d: usize = 0;
        while d < self.displays.len()
            invariant
                d <= self.displays.len(),
                p == (|d: DisplayView| d.holds(id)),
                forall|j: int| 0 <= j < d ==> !(#[trigger] self.model().displays[j]).holds(id),
            decreases self.displays.len() - d,
        {
            assert(self.model().displays[d as int] == self.displays@[d as int]@);
            if self.displays[d].holds(id) {
                proof {
                    search::lemma_first_index(self.model().displays, p, d as int);
                }
                return Some(&self.displays[d]);
            }
            d = d + 1;
        }
        proof {
            search::lemma_no_first_index(self.model().displays, p);
        }
        None
    }

    /// The workspace holding `id`.
    pub fn workspace_of(&self, id: WinID) -> (workspace: Option<&WorkspaceSet>)
        ensures
            workspace_view(workspace) == self.model().workspace_of(id),
            workspace matches Some(w) ==> w@.holds(id),
    {
        let workspaces = self.workspaces();
        let ghost whole = all_workspaces(self.model().displays);
        let ghost p = |w: WorkspaceView| w.holds(id);
        let mut i: usize = 0;
        while i < workspaces.len()
            invariant
                i <= workspaces.len(),
                workspaces@.map_values(|w: &WorkspaceSet| w@) == whole,
                p == (|w: WorkspaceView| w.holds(id)),
                whole == all_workspaces(self.model().displays),
                forall|j: int| 0 <= j < i ==> !(#[trigger] whole[j]).holds(id),
            decreases workspaces.len() - i,
        {
            assert(workspaces@[i as int]@ == workspaces@.map_values(|w: &WorkspaceSet| w@)[i as int]);
            if workspaces[i].holds(id) {
                proof {
                    search::lemma_first_index(whole, p, i as int);
                }
                return Some(workspaces[i]);
            }
            i = i + 1;
        }
        proof {
            assert(whole.len() == workspaces@.len());
            search::lemma_no_first_index(whole, p);
        }
        None
    }

    /// Which column of its workspace holds `id`, counted from the left.
    pub fn column_of(&self, id: WinID) -> (column: Option<usize>)
        ensures
            column matches Some(c) ==> self.model().column_of(id) == Some(c as int),
            column is None <==> self.model().column_of(id) is None,
    {
        match self.workspace_of(id) {
            Some(workspace) => workspace.column_of(id),
            None => None,
        }
    }

    /// The window one column to the east (right), staying on the workspace.
    pub fn east(&self, id: WinID) -> (window: Option<WinID>)
        ensures
            window == self.model().east_of(id),
    {
        self.neighbour(id, true)
    }

    /// The window one column to the west (left), staying on the workspace.
    pub fn west(&self, id: WinID) -> (window: Option<WinID>)
        ensures
            window == self.model().west_of(id),
    {
        self.neighbour(id, false)
    }

    /// The next window in the workspace's own order, wrapping at the end.
    pub fn next(&self, id: WinID) -> (window: Option<WinID>)
        ensures
            window == self.model().after(id),
    {
        self.cycle(id, true)
    }

    /// The previous window in the workspace's own order, wrapping at the start.
    pub fn prev(&self, id: WinID) -> (window: Option<WinID>)
        ensures
            window == self.model().before(id),
    {
        self.cycle(id, false)
    }

    /// The top window of the next column to the east or west, if there is one.
    fn neighbour(&self, id: WinID, eastward: bool) -> (window: Option<WinID>)
        ensures
            window == self.model().neighbour(id, if eastward { 1 } else { -1 }),
    {
        let workspace = match self.workspace_of(id) {
            Some(workspace) => workspace,
            None => return None,
        };
        let column: usize = match workspace.column_of(id) {
            Some(column) => column,
            None => return None,
        };
        let target: usize = if eastward {
            column + 1
        } else if column > 0 {
            column - 1
        } else {
            return None;
        };
        if target >= workspace.columns.len() {
            return None;
        }
        assert(workspace@.columns[target as int] == workspace.columns@[target as int]@);
        match workspace.columns[target].top() {
            Some(window) => Some(window.id),
            None => None,
        }
    }

    /// The next or previous window in workspace order, wrapping around.
    fn cycle(&self, id: WinID, forward: bool) -> (window: Option<WinID>)
        ensures
            window == self.model().cycle(id, if forward { 1 } else { -1 }),
    {
        let workspace = match self.workspace_of(id) {
            Some(workspace) => workspace,
            None => return None,
        };
        let windows = workspace.windows();
        let ghost g = |w: &WindowRec| *w;
        let ghost order = workspace@.windows();
        assert(windows@.map_values(g) == order);
        proof {
            lemma_workspace_holds(workspace@, id);
            lemma_some_has_first(order, id);
        }
        let mut at: usize = 0;
        while at < windows.len() && windows[at].id != id
            invariant
                at <= windows.len(),
                g == (|w: &WindowRec| *w),
                windows@.map_values(g) == order,
                forall|j: int| 0 <= j < at ==> (#[trigger] order[j]).id != id,
            decreases windows.len() - at,
        {
            assert(*windows@[at as int] == windows@.map_values(g)[at as int]);
            at = at + 1;
        }
        proof {
            assert(order.len() == windows@.len());
            if at == windows.len() {
                search::lemma_no_first_index(order, has_id(id));
                assert(false);
            }
            assert(*windows@[at as int] == windows@.map_values(g)[at as int]);
            search::lemma_first_index(order, has_id(id), at as int);
        }
        let index: usize = if forward {
            if at + 1 == windows.len() {
                0
            } else {
                at + 1
            }
        } else if at == 0 {
            windows.len() - 1
        } else {
            at - 1
        };
        proof {
            let n = windows@.len() as int;
            let offset: int = if forward {
                1
            } else {
                -1
            };
            assert((at + offset) % n == index) by {
                if at + offset == n {
                    vstd::arithmetic::div_mod::lemma_mod_self_0(n);
                } else if at + offset == -1 {
                    vstd::arithmetic::div_mod::lemma_fundamental_div_mod_converse(-1, n, -1, n - 1);
                } else {
                    vstd::arithmetic::div_mod::lemma_small_mod((at + offset) as nat, n as nat);
                }
            }
            assert(*windows@[index as int] == windows@.map_values(g)[index as int]);
        }
        Some(windows[index].id)
    }

    /// The ops recorded on this value, oldest first. This is what the host
    /// replays; an untransformed value yields nothing.
    pub fn ops(&self) -> (ops: Vec<LayoutOp>)
        ensures
            ops@ == self.model().ops,
    {
        let mut newest_first: Vec<LayoutOp> = Vec::new();
        let mut node = &self.ops;
        let ghost whole = ops_of(self.ops);
        assert(whole =~= ops_of(*node) + newest_first@.reverse());
        loop
            invariant
                whole == ops_of(*node) + newest_first@.reverse(),
            ensures
                whole == newest_first@.reverse(),
            decreases ops_of(*node).len(),
        {
            match node {
                Some(current) => {
                    let ghost earlier = newest_first@;
                    newest_first.push(current.op);
                    node = &current.prev;
                    assert(newest_first@.reverse() =~= seq![current.op] + earlier.reverse());
                    assert(whole =~= ops_of(*node) + newest_first@.reverse());
                },
                None => {
                    assert(ops_of(*node) + newest_first@.reverse() =~= newest_first@.reverse());
                    break ;
                },
            }
        }
        let mut ops: Vec<LayoutOp> = Vec::new();
        let mut left: usize = newest_first.len();
        while left > 0
            invariant
                left <= newest_first.len(),
                ops@ == newest_first@.reverse().take(newest_first.len() - left),
            decreases left,
        {
            left = left - 1;
            let ghost reversed = newest_first@.reverse();
            let ghost k = newest_first.len() - left;
            assert(reversed.take(k as int) =~= reversed.take(k - 1).push(
                newest_first@[left as int],
            ));
            ops.push(newest_first[left]);
        }
        assert(newest_first@.reverse().take(newest_first.len() as int) =~= newest_first@.reverse());
        ops
    }

    /// Whether anything has been asked of this value.
    pub fn is_transformed(&self) -> (transformed: bool)
        ensures
            transformed == (self.model().ops.len() > 0),
    {
        self.ops.is_some()
    }
}

// ---------------------------------------------------------------------------
// Transforming
// ---------------------------------------------------------------------------
/// The window with its focus flag saying whether it is the one meant.
pub open spec fn refocused(window: WinID) -> spec_fn(WindowRec) -> WindowRec {
    |r: WindowRec| WindowRec { focused: r.id == window, ..r }
}

/// The window with its managed flag set, where it is the one meant.
pub open spec fn remanaged(window: WinID, managed: bool) -> spec_fn(WindowRec) -> WindowRec {
    |r: WindowRec|
        if r.id == window {
            WindowRec { managed, ..r }
        } else {
            r
        }
}

/// Each of two windows replaced by the other. The focus does not move: the window
/// that has it has it in its new place.
pub open spec fn exchanged(first: WinID, left: WindowRec, second: WinID, right: WindowRec) -> spec_fn(
    WindowRec,
) -> WindowRec {
    |r: WindowRec|
        if r.id == first {
            right
        } else if r.id == second {
            left
        } else {
            r
        }
}

impl WindowSetView {
    /// The value with one more op recorded and the given layout.
    pub open spec fn recorded(self, op: LayoutOp, displays: Seq<DisplayView>) -> WindowSetView {
        WindowSetView { displays, ops: self.ops.push(op), ..self }
    }

    /// The value with a window focused.
    pub open spec fn focusing(self, window: WinID) -> WindowSetView {
        WindowSetView {
            displays: edit::map_windows(self.displays, refocused(window)),
            focused: Some(window),
            ops: self.ops.push(LayoutOp::Focus(window)),
        }
    }

    /// The value with two windows exchanged.
    pub open spec fn swapping(self, first: WinID, second: WinID) -> WindowSetView {
        self.recorded(LayoutOp::Swap(first, second), swapped(self.displays, first, second))
    }

    /// The value with a window sent to a workspace.
    pub open spec fn shifting(self, window: WinID, workspace: u32, follow: bool) -> WindowSetView {
        self.recorded(
            LayoutOp::MoveToWorkspace { window, workspace, follow },
            shifted(self.displays, window, workspace),
        )
    }

    /// The value with a workspace shown.
    pub open spec fn viewing(self, workspace: u32) -> WindowSetView {
        self.recorded(LayoutOp::View { workspace }, viewed(self.displays, workspace))
    }

    /// The value with a window floating.
    pub open spec fn floating_out(self, window: WinID) -> WindowSetView {
        self.recorded(
            LayoutOp::SetFloating { window, floating: true },
            refloated(self.displays, window, true),
        )
    }

    /// The value with a window tiled again.
    pub open spec fn sinking(self, window: WinID) -> WindowSetView {
        self.recorded(
            LayoutOp::SetFloating { window, floating: false },
            refloated(self.displays, window, false),
        )
    }

    /// The value with a window laid out by the window manager.
    pub open spec fn managing(self, window: WinID) -> WindowSetView {
        self.recorded(
            LayoutOp::SetManaged { window, managed: true },
            edit::map_windows(self.displays, remanaged(window, true)),
        )
    }

    /// The value with a window left alone by the window manager.
    pub open spec fn unmanaging(self, window: WinID) -> WindowSetView {
        self.recorded(
            LayoutOp::SetManaged { window, managed: false },
            edit::map_windows(self.displays, remanaged(window, false)),
        )
    }

    /// The value with another width of a window's column.
    pub open spec fn widening(self, window: WinID, ratio: Number) -> WindowSetView {
        self.recorded(
            LayoutOp::SetWidth { window, ratio },
            edit::map_columns(self.displays, edit::widen(window, ratio)),
        )
    }

    /// The value with a window in the stack of another.
    pub open spec fn stacking(self, window: WinID, onto: WinID) -> WindowSetView {
        self.recorded(
            LayoutOp::Stack { window, onto, tabs: false },
            stacked(self.displays, window, onto, false),
        )
    }

    /// The value with a window among the tabs of another.
    pub open spec fn tabbing(self, window: WinID, onto: WinID) -> WindowSetView {
        self.recorded(
            LayoutOp::Stack { window, onto, tabs: true },
            stacked(self.displays, window, onto, true),
        )
    }

    /// The value with a window in a column of its own.
    pub open spec fn unstacking(self, window: WinID) -> WindowSetView {
        self.recorded(LayoutOp::Unstack(window), unstacked(self.displays, window))
    }

    /// The window that shows in the next column.
    pub open spec fn east_of(self, id: WinID) -> Option<WinID> {
        self.neighbour(id, 1)
    }

    /// The window that shows in the column before.
    pub open spec fn west_of(self, id: WinID) -> Option<WinID> {
        self.neighbour(id, -1)
    }

    /// The window that comes next on the workspace.
    pub open spec fn after(self, id: WinID) -> Option<WinID> {
        self.cycle(id, 1)
    }

    /// The window that comes before on the workspace.
    pub open spec fn before(self, id: WinID) -> Option<WinID> {
        self.cycle(id, -1)
    }
}

/// The layout with two windows exchanged, unchanged where either is missing.
pub open spec fn swapped(displays: Seq<DisplayView>, first: WinID, second: WinID) -> Seq<
    DisplayView,
> {
    let left = search::first_where(all_windows(displays), has_id(first));
    let right = search::first_where(all_windows(displays), has_id(second));
    if left is Some && right is Some {
        edit::map_windows(displays, exchanged(first, left->0, second, right->0))
    } else {
        displays
    }
}

/// The layout with a new column for the record at the end of the first
/// workspace that satisfies `p`, or unchanged where none does.
pub open spec fn given_column(
    displays: Seq<DisplayView>,
    p: spec_fn(WorkspaceView) -> bool,
    record: WindowRec,
) -> Seq<DisplayView> {
    match edit::find_workspace(displays, p) {
        Some((d, w)) => {
            let target = displays[d].workspaces[w];
            edit::with_workspace(
                displays,
                d,
                w,
                WorkspaceView {
                    columns: target.columns.push(
                        ColumnView::single(record, Number { bits: 0x3FE0_0000_0000_0000 }),
                    ),
                    ..target
                },
            )
        },
        None => displays,
    }
}

/// The workspaces with this number.
pub open spec fn numbered(number: u32) -> spec_fn(WorkspaceView) -> bool {
    |w: WorkspaceView| w.number == number
}

/// The workspaces that are shown.
pub open spec fn shown() -> spec_fn(WorkspaceView) -> bool {
    |w: WorkspaceView| w.active
}

/// The layout with a window moved to a new column of the workspace with this
/// number. Where there is no such window nothing changes; where there is no
/// such workspace the window leaves the layout.
pub open spec fn shifted(displays: Seq<DisplayView>, window: WinID, number: u32) -> Seq<
    DisplayView,
> {
    match edit::take_window(displays, window) {
        Some((record, rest)) => given_column(rest, numbered(number), record),
        None => displays,
    }
}

/// The layout with a window given a new column of its own on the first
/// workspace that is shown.
pub open spec fn unstacked(displays: Seq<DisplayView>, window: WinID) -> Seq<DisplayView> {
    match edit::take_window(displays, window) {
        Some((record, rest)) => given_column(rest, shown(), record),
        None => displays,
    }
}

/// The layout with a window floating above the first workspace that is shown,
/// or tiled in a new column of it.
pub open spec fn refloated(displays: Seq<DisplayView>, window: WinID, floating: bool) -> Seq<
    DisplayView,
> {
    match edit::take_window(displays, window) {
        Some((taken, rest)) => {
            let record = WindowRec { floating, ..taken };
            if floating {
                match edit::find_workspace(rest, shown()) {
                    Some((d, w)) => {
                        let target = rest[d].workspaces[w];
                        edit::with_workspace(
                            rest,
                            d,
                            w,
                            WorkspaceView { floating: target.floating.push(record), ..target },
                        )
                    },
                    None => rest,
                }
            } else {
                given_column(rest, shown(), record)
            }
        },
        None => displays,
    }
}

/// The workspaces that tile this window.
pub open spec fn tiler(id: WinID) -> spec_fn(WorkspaceView) -> bool {
    |w: WorkspaceView| w.tiles(id)
}

/// The layout with a window at the end of another one's column, which becomes
/// a stack or tabs. Where the other is not tiled the window leaves the layout.
pub open spec fn stacked(displays: Seq<DisplayView>, window: WinID, onto: WinID, tabs: bool) -> Seq<
    DisplayView,
> {
    match edit::take_window(displays, window) {
        Some((record, rest)) => match edit::find_workspace(rest, tiler(onto)) {
            Some((d, w)) => {
                let target = rest[d].workspaces[w];
                let c = target.column_of(onto)->0;
                edit::with_workspace(
                    rest,
                    d,
                    w,
                    WorkspaceView {
                        columns: target.columns.update(
                            c,
                            ColumnView {
                                kind: if tabs {
                                    ColumnKind::Tabs
                                } else {
                                    ColumnKind::Stack
                                },
                                windows: target.columns[c].windows.push(record),
                                ..target.columns[c]
                            },
                        ),
                        ..target
                    },
                )
            },
            None => rest,
        },
        None => displays,
    }
}

/// The layout with the workspace of this number shown on the first display
/// that has one, and no other on that display.
pub open spec fn viewed(displays: Seq<DisplayView>, number: u32) -> Seq<DisplayView> {
    match search::first_index(displays, |d: DisplayView| d.has_number(number)) {
        Some(d) => displays.update(
            d,
            DisplayView {
                workspaces: displays[d].workspaces.map_values(
                    |w: WorkspaceView| WorkspaceView { active: w.number == number, ..w },
                ),
                ..displays[d]
            },
        ),
        None => displays,
    }
}

impl Clone for WindowSet {
    fn clone(&self) -> (copy: Self)
        ensures
            copy == *self,
    {
        WindowSet {
            displays: edit::share(&self.displays),
            focused: self.focused,
            ops: match &self.ops {
                Some(node) => Some(edit::share(node)),
                None => None,
            },
        }
    }
}

impl WindowSet {
    /// A copy of `self` with `op` recorded and `displays` for its tree.
    fn with(&self, op: LayoutOp, displays: Vec<DisplaySet>) -> (next: Self)
        ensures
            next.model() == self.model().recorded(op, displays_view(displays@)),
    {
        let mut next = self.recording(op);
        next.displays = Rc::new(displays);
        next
    }

    /// Records `op` without changing the tree at all, nor copying it.
    fn recording(&self, op: LayoutOp) -> (next: Self)
        ensures
            next.model() == self.model().recorded(op, self.model().displays),
    {
        let prev = match &self.ops {
            Some(node) => Some(edit::share(node)),
            None => None,
        };
        WindowSet {
            displays: edit::share(&self.displays),
            focused: self.focused,
            ops: Some(Rc::new(OpNode { op, prev })),
        }
    }

    /// Focuses `window`.
    pub fn focus(&self, window: WinID) -> (next: Self)
        ensures
            next.model() == self.model().focusing(window),
    {
        let visit = |r: &WindowRec| -> (o: WindowRec)
            ensures
                o == refocused(window)(*r),
            {
                let mut record = r.clone();
                record.focused = record.id == window;
                record
            };
        let displays = edit::for_each_window(&self.displays, &visit, Ghost(refocused(window)));
        let mut next = self.with(LayoutOp::Focus(window), displays);
        next.focused = Some(window);
        next
    }

    /// Exchanges two windows' places in the layout. The tree is left alone if
    /// either is missing, though the intent is still recorded: the host may
    /// well be able to resolve a window this snapshot has already lost.
    pub fn swap(&self, first: WinID, second: WinID) -> (next: Self)
        ensures
            next.model() == self.model().swapping(first, second),
    {
        let op = LayoutOp::Swap(first, second);
        let (left, right) = match (self.window(first), self.window(second)) {
            (Some(left), Some(right)) => (left.clone(), right.clone()),
            _ => return self.recording(op),
        };
        let ghost f = exchanged(first, left, second, right);
        let visit = |r: &WindowRec| -> (o: WindowRec)
            ensures
                o == f(*r),
            {
                if r.id == first {
                    right.clone()
                } else if r.id == second {
                    left.clone()
                } else {
                    r.clone()
                }
            };
        let displays = edit::for_each_window(&self.displays, &visit, Ghost(f));
        self.with(op, displays)
    }

    /// Sends `window` to virtual workspace `workspace`, without following it.
    pub fn shift(&self, window: WinID, workspace: u32) -> (next: Self)
        ensures
            next.model() == self.model().shifting(window, workspace, false),
    {
        self.shift_following(window, workspace, false)
    }

    /// Sends `window` to virtual workspace `workspace`, optionally following it
    /// there.
    pub fn shift_following(&self, window: WinID, workspace: u32, follow: bool) -> (next: Self)
        ensures
            next.model() == self.model().shifting(window, workspace, follow),
    {
        let op = LayoutOp::MoveToWorkspace { window, workspace, follow };
        match edit::take(&self.displays, window) {
            Some((record, rest)) => {
                let wanted = |w: &WorkspaceSet| -> (b: bool)
                    ensures
                        b == numbered(workspace)(w@),
                    { w.number == workspace };
                let displays = place(rest, &wanted, Ghost(numbered(workspace)), record);
                self.with(op, displays)
            },
            None => self.recording(op),
        }
    }

    /// Shows virtual workspace `workspace` on its display.
    pub fn view(&self, workspace: u32) -> (next: Self)
        ensures
            next.model() == self.model().viewing(workspace),
    {
        let op = LayoutOp::View { workspace };
        let ghost p = |d: DisplayView| d.has_number(workspace);
        let mut d: usize = 0;
        while d < self.displays.len()
            invariant
                d <= self.displays.len(),
                p == (|d: DisplayView| d.has_number(workspace)),
                op == (LayoutOp::View { workspace }),
                forall|j: int| 0 <= j < d ==> !p(#[trigger] self.model().displays[j]),
            decreases self.displays.len() - d,
        {
            let display = &self.displays[d];
            assert(self.model().displays[d as int] == display@);
            let mut workspaces: Vec<WorkspaceSet> = Vec::new();
            let mut any = false;
            let mut w: usize = 0;
            while w < display.workspaces.len()
                invariant
                    w <= display.workspaces.len(),
                    workspaces.len() == w,
                    any <==> exists|j: int|
                        0 <= j < w && (#[trigger] display@.workspaces[j]).number == workspace,
                    forall|j: int|
                        0 <= j < w ==> (#[trigger] workspaces@[j])@ == (WorkspaceView {
                            active: display@.workspaces[j].number == workspace,
                            ..display@.workspaces[j]
                        }),
                decreases display.workspaces.len() - w,
            {
                assert(display@.workspaces[w as int] == display.workspaces@[w as int]@);
                let mut candidate = display.workspaces[w].clone();
                candidate.active = candidate.number == workspace;
                if candidate.active {
                    any = true;
                }
                workspaces.push(candidate);
                w = w + 1;
            }
            if any {
                let switched = DisplaySet {
                    id: display.id,
                    frame: display.frame,
                    active: display.active,
                    workspaces: Rc::new(workspaces),
                };
                proof {
                    search::lemma_first_index(self.model().displays, p, d as int);
                    assert(switched@ =~= viewed(self.model().displays, workspace)[d as int]);
                }
                let mut displays: Vec<DisplaySet> = Vec::new();
                let mut i: usize = 0;
                while i < self.displays.len()
                    invariant
                        i <= self.displays.len(),
                        displays.len() == i,
                        forall|k: int| 0 <= k < i ==> #[trigger] displays@[k] == self.displays@[k],
                    decreases self.displays.len() - i,
                {
                    displays.push(self.displays[i].clone());
                    i = i + 1;
                }
                displays.set(d, switched);
                assert(displays_view(displays@) =~= viewed(self.model().displays, workspace));
                return self.with(op, displays);
            }
            d = d + 1;
        }
        proof {
            search::lemma_no_first_index(self.model().displays, p);
        }
        self.recording(op)
    }

    /// Takes `window` out of the tiling layout.
    pub fn float(&self, window: WinID) -> (next: Self)
        ensures
            next.model() == self.model().floating_out(window),
    {
        self.set_floating(window, true)
    }

    /// Puts a floating `window` back into the tiling layout.
    pub fn sink(&self, window: WinID) -> (next: Self)
        ensures
            next.model() == self.model().sinking(window),
    {
        self.set_floating(window, false)
    }

    fn set_floating(&self, window: WinID, floating: bool) -> (next: Self)
        ensures
            next.model() == self.model().recorded(
                LayoutOp::SetFloating { window, floating },
                refloated(self.model().displays, window, floating),
            ),
    {
        let op = LayoutOp::SetFloating { window, floating };
        match edit::take(&self.displays, window) {
            Some((taken, rest)) => {
                let mut record = taken;
                record.floating = floating;
                let wanted = |w: &WorkspaceSet| -> (b: bool)
                    ensures
                        b == shown()(w@),
                    { w.active };
                if floating {
                    match edit::locate(&rest, &wanted, Ghost(shown())) {
                        Some((d, w)) => {
                            assert(displays_view(rest@)[d as int].workspaces[w as int]
                                == rest@[d as int].workspaces@[w as int]@);
                            let target = rest[d].workspaces[w].with_floating(record);
                            self.with(op, edit::replace_workspace(&rest, d, w, target))
                        },
                        None => self.with(op, rest),
                    }
                } else {
                    let displays = place(rest, &wanted, Ghost(shown()), record);
                    self.with(op, displays)
                }
            },
            None => self.recording(op),
        }
    }

    /// Starts laying `window` out.
    pub fn manage(&self, window: WinID) -> (next: Self)
        ensures
            next.model() == self.model().managing(window),
    {
        self.set_managed(window, true)
    }

    /// Stops laying `window` out, leaving it where it is.
    pub fn unmanage(&self, window: WinID) -> (next: Self)
        ensures
            next.model() == self.model().unmanaging(window),
    {
        self.set_managed(window, false)
    }

    fn set_managed(&self, window: WinID, managed: bool) -> (next: Self)
        ensures
            next.model() == self.model().recorded(
                LayoutOp::SetManaged { window, managed },
                edit::map_windows(self.model().displays, remanaged(window, managed)),
            ),
    {
        let visit = |r: &WindowRec| -> (o: WindowRec)
            ensures
                o == remanaged(window, managed)(*r),
            {
                let mut record = r.clone();
                if record.id == window {
                    record.managed = managed;
                }
                record
            };
        let displays = edit::for_each_window(
            &self.displays,
            &visit,
            Ghost(remanaged(window, managed)),
        );
        self.with(LayoutOp::SetManaged { window, managed }, displays)
    }

    /// Sets the width of `window`'s column, as a fraction of the display.
    pub fn width(&self, window: WinID, ratio: Number) -> (next: Self)
        ensures
            next.model() == self.model().widening(window, ratio),
    {
        let displays = edit::set_width(&self.displays, window, ratio);
        self.with(LayoutOp::SetWidth { window, ratio }, displays)
    }

    /// Puts `window` into `onto`'s column as a stack entry.
    pub fn stack(&self, window: WinID, onto: WinID) -> (next: Self)
        ensures
            next.model() == self.model().stacking(window, onto),
    {
        self.stack_as(window, onto, false)
    }

    /// Puts `window` into `onto`'s column as a tab.
    pub fn tab(&self, window: WinID, onto: WinID) -> (next: Self)
        ensures
            next.model() == self.model().tabbing(window, onto),
    {
        self.stack_as(window, onto, true)
    }

    fn stack_as(&self, window: WinID, onto: WinID, tabs: bool) -> (next: Self)
        ensures
            next.model() == self.model().recorded(
                LayoutOp::Stack { window, onto, tabs },
                stacked(self.model().displays, window, onto, tabs),
            ),
    {
        let op = LayoutOp::Stack { window, onto, tabs };
        match edit::take(&self.displays, window) {
            Some((record, rest)) => {
                let tiles = |w: &WorkspaceSet| -> (b: bool)
                    ensures
                        b == tiler(onto)(w@),
                    { w.column_of(onto).is_some() };
                match edit::locate(&rest, &tiles, Ghost(tiler(onto))) {
                    Some((d, w)) => {
                        assert(displays_view(rest@)[d as int].workspaces[w as int]
                            == rest@[d as int].workspaces@[w as int]@);
                        let c: usize = match rest[d].workspaces[w].column_of(onto) {
                            Some(c) => c,
                            None => {
                                assert(false);
                                0
                            },
                        };
                        let kind = if tabs {
                            ColumnKind::Tabs
                        } else {
                            ColumnKind::Stack
                        };
                        let target = rest[d].workspaces[w].with_stacked(c, record, kind);
                        self.with(op, edit::replace_workspace(&rest, d, w, target))
                    },
                    None => self.with(op, rest),
                }
            },
            None => self.recording(op),
        }
    }

    /// Gives `window` a column of its own again.
    pub fn unstack(&self, window: WinID) -> (next: Self)
        ensures
            next.model() == self.model().unstacking(window),
    {
        let op = LayoutOp::Unstack(window);
        match edit::take(&self.displays, window) {
            Some((record, rest)) => {
                let wanted = |w: &WorkspaceSet| -> (b: bool)
                    ensures
                        b == shown()(w@),
                    { w.active };
                let displays = place(rest, &wanted, Ghost(shown()), record);
                self.with(op, displays)
            },
            None => self.recording(op),
        }
    }
}

/// Gives a window a new column at the end of the first workspace that passes
/// `test`, if one does.
fn place<F: Fn(&WorkspaceSet) -> bool>(
    displays: Vec<DisplaySet>,
    test: &F,
    Ghost(p): Ghost<spec_fn(WorkspaceView) -> bool>,
    record: WindowRec,
) -> (changed: Vec<DisplaySet>)
    requires
        forall|w: &WorkspaceSet| #[trigger] call_requires(*test, (w,)),
        forall|w: &WorkspaceSet, b: bool| #[trigger] call_ensures(*test, (w,), b) ==> b == p(w@),
    ensures
        displays_view(changed@) == given_column(displays_view(displays@), p, record),
{
    match edit::locate(&displays, test, Ghost(p)) {
        Some((d, w)) => {
            assert(displays_view(displays@)[d as int].workspaces[w as int]
                == displays@[d as int].workspaces@[w as int]@);
            let target = displays[d].workspaces[w].with_column(record, Number::half());
            edit::replace_workspace(&displays, d, w, target)
        },
        None => displays,
    }
}

} // verus!
