//! When two layouts are the same: field by field, text by its characters,
//! ratios as numbers. What was asked of a value is not compared.
use vstd::prelude::*;

use crate::state::Frame;
use crate::windowset;
use crate::windowset::{
    ColumnSet, ColumnView, DisplaySet, DisplayView, WindowRec, WindowSet, WindowSetView,
    WorkspaceSet, WorkspaceView,
};

verus! {

/// Two windows are the same.
pub open spec fn same_window(a: WindowRec, b: WindowRec) -> bool {
    &&& a.id == b.id
    &&& a.app_name@ == b.app_name@
    &&& a.bundle_id@ == b.bundle_id@
    &&& a.title@ == b.title@
    &&& a.frame == b.frame
    &&& a.floating == b.floating
    &&& a.managed == b.managed
    &&& a.visible == b.visible
    &&& a.focused == b.focused
}

/// Two lists of windows are the same.
pub open spec fn same_window_list(a: Seq<WindowRec>, b: Seq<WindowRec>) -> bool {
    &&& a.len() == b.len()
    &&& forall|i: int| #![trigger a[i]] 0 <= i < a.len() ==> same_window(a[i], b[i])
}

/// Two columns are the same.
pub open spec fn same_column(a: ColumnView, b: ColumnView) -> bool {
    &&& a.kind == b.kind
    &&& crate::number::ieee_equal(a.width_ratio.bits, b.width_ratio.bits)
    &&& a.selected == b.selected
    &&& same_window_list(a.windows, b.windows)
}

/// Two workspaces are the same.
pub open spec fn same_workspace(a: WorkspaceView, b: WorkspaceView) -> bool {
    &&& a.number == b.number
    &&& a.native_id == b.native_id
    &&& a.active == b.active
    &&& a.columns.len() == b.columns.len()
    &&& forall|i: int|
        #![trigger a.columns[i]]
        0 <= i < a.columns.len() ==> same_column(a.columns[i], b.columns[i])
    &&& same_window_list(a.floating, b.floating)
}

/// Two displays are the same.
pub open spec fn same_display(a: DisplayView, b: DisplayView) -> bool {
    &&& a.id == b.id
    &&& a.frame == b.frame
    &&& a.active == b.active
    &&& a.workspaces.len() == b.workspaces.len()
    &&& forall|i: int|
        #![trigger a.workspaces[i]]
        0 <= i < a.workspaces.len() ==> same_workspace(a.workspaces[i], b.workspaces[i])
}

/// Two values describe the same layout, whatever was asked of them.
pub open spec fn same_layout(a: WindowSetView, b: WindowSetView) -> bool {
    &&& a.focused == b.focused
    &&& a.displays.len() == b.displays.len()
    &&& forall|i: int|
        #![trigger a.displays[i]]
        0 <= i < a.displays.len() ==> same_display(a.displays[i], b.displays[i])
}

/// Whether two values are equal does not depend on what was asked of them.
pub proof fn law_ops_are_not_compared(
    a: WindowSetView,
    b: WindowSetView,
    ops: Seq<windowset::LayoutOp>,
)
    ensures
        same_layout(a, b) == same_layout(WindowSetView { ops, ..a }, b),
        same_layout(a, b) == same_layout(a, WindowSetView { ops, ..b }),
{
}

fn same_frame(a: &Option<Frame>, b: &Option<Frame>) -> (same: bool)
    ensures
        same == (*a == *b),
{
    match (a, b) {
        (Some(x), Some(y)) => *x == *y,
        (None, None) => true,
        _ => false,
    }
}

impl PartialEq for WindowRec {
    fn eq(&self, other: &Self) -> (equal: bool) {
        self.id == other.id && self.app_name == other.app_name && self.bundle_id == other.bundle_id
            && self.title == other.title && same_frame(&self.frame, &other.frame) && self.floating
            == other.floating && self.managed == other.managed && self.visible == other.visible
            && self.focused == other.focused
    }
}

impl vstd::std_specs::cmp::PartialEqSpecImpl for WindowRec {
    open spec fn obeys_eq_spec() -> bool {
        true
    }

    open spec fn eq_spec(&self, other: &Self) -> bool {
        same_window(*self, *other)
    }
}

fn equal_windows(a: &Vec<WindowRec>, b: &Vec<WindowRec>) -> (same: bool)
    ensures
        same == same_window_list(a@, b@),
{
    if a.len() != b.len() {
        return false;
    }
    let mut i: usize = 0;
    while i < a.len()
        invariant
            i <= a.len(),
            a.len() == b.len(),
            forall|j: int| #![trigger a@[j]] 0 <= j < i ==> same_window(a@[j], b@[j]),
        decreases a.len() - i,
    {
        if !(a[i] == b[i]) {
            assert(!same_window(a@[i as int], b@[i as int]));
            return false;
        }
        i = i + 1;
    }
    true
}

impl PartialEq for ColumnSet {
    fn eq(&self, other: &Self) -> (equal: bool) {
        self.kind == other.kind && self.width_ratio == other.width_ratio && self.selected
            == other.selected && equal_windows(&self.windows, &other.windows)
    }
}

impl vstd::std_specs::cmp::PartialEqSpecImpl for ColumnSet {
    open spec fn obeys_eq_spec() -> bool {
        true
    }

    open spec fn eq_spec(&self, other: &Self) -> bool {
        same_column(self@, other@)
    }
}

impl PartialEq for WorkspaceSet {
    fn eq(&self, other: &Self) -> (equal: bool) {
        if self.number != other.number || self.native_id != other.native_id || self.active
            != other.active || self.columns.len() != other.columns.len() {
            return false;
        }
        let mut i: usize = 0;
        while i < self.columns.len()
            invariant
                i <= self.columns.len(),
                self.columns.len() == other.columns.len(),
                forall|j: int|
                    #![trigger self@.columns[j]]
                    0 <= j < i ==> same_column(self@.columns[j], other@.columns[j]),
            decreases self.columns.len() - i,
        {
            assert(self@.columns[i as int] == self.columns@[i as int]@);
            assert(other@.columns[i as int] == other.columns@[i as int]@);
            if !(self.columns[i] == other.columns[i]) {
                return false;
            }
            i = i + 1;
        }
        equal_windows(&self.floating, &other.floating)
    }
}

impl vstd::std_specs::cmp::PartialEqSpecImpl for WorkspaceSet {
    open spec fn obeys_eq_spec() -> bool {
        true
    }

    open spec fn eq_spec(&self, other: &Self) -> bool {
        same_workspace(self@, other@)
    }
}

impl PartialEq for DisplaySet {
    fn eq(&self, other: &Self) -> (equal: bool) {
        if self.id != other.id || !(self.frame == other.frame) || self.active != other.active
            || self.workspaces.len() != other.workspaces.len() {
            return false;
        }
        let mut i: usize = 0;
        while i < self.workspaces.len()
            invariant
                i <= self.workspaces.len(),
                self.id == other.id,
                self.frame == other.frame,
                self.active == other.active,
                self.workspaces.len() == other.workspaces.len(),
                forall|j: int|
                    #![trigger self@.workspaces[j]]
                    0 <= j < i ==> same_workspace(self@.workspaces[j], other@.workspaces[j]),
            decreases self.workspaces.len() - i,
        {
            assert(self@.workspaces[i as int] == self.workspaces@[i as int]@);
            assert(other@.workspaces[i as int] == other.workspaces@[i as int]@);
            if !(self.workspaces[i] == other.workspaces[i]) {
                return false;
            }
            i = i + 1;
        }
        true
    }
}

impl vstd::std_specs::cmp::PartialEqSpecImpl for DisplaySet {
    open spec fn obeys_eq_spec() -> bool {
        true
    }

    open spec fn eq_spec(&self, other: &Self) -> bool {
        same_display(self@, other@)
    }
}

impl PartialEq for WindowSet {
    fn eq(&self, other: &Self) -> (equal: bool) {
        let mine = self.displays();
        let theirs = other.displays();
        if mine.len() != theirs.len() {
            return false;
        }
        let mut i: usize = 0;
        while i < mine.len()
            invariant
                i <= mine.len(),
                mine.len() == theirs.len(),
                windowset::displays_view(mine@) == self.model().displays,
                windowset::displays_view(theirs@) == other.model().displays,
                forall|j: int|
                    #![trigger self.model().displays[j]]
                    0 <= j < i ==> same_display(
                        self.model().displays[j],
                        other.model().displays[j],
                    ),
            decreases mine.len() - i,
        {
            assert(self.model().displays[i as int] == windowset::displays_view(mine@)[i as int]);
            assert(other.model().displays[i as int] == windowset::displays_view(theirs@)[i as int]);
            if !(mine[i] == theirs[i]) {
                return false;
            }
            i = i + 1;
        }
        match (self.focused(), other.focused()) {
            (Some(a), Some(b)) => a == b,
            (None, None) => true,
            _ => false,
        }
    }
}

impl vstd::std_specs::cmp::PartialEqSpecImpl for WindowSet {
    open spec fn obeys_eq_spec() -> bool {
        true
    }

    open spec fn eq_spec(&self, other: &Self) -> bool {
        same_layout(self.model(), other.model())
    }
}

} // verus!
