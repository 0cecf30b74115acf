//! The window set and its transforms.
use std::rc::Rc;

use paneru::number::Number;
use paneru::state::Frame;
use paneru::windowset::{
    ColumnKind, ColumnSet, DisplaySet, LayoutOp, WinID, WindowRec, WindowSet, WorkspaceSet,
};

fn number(value: f64) -> Number {
    Number { bits: value.to_bits() }
}

fn window(id: WinID, name: &str) -> WindowRec {
    WindowRec {
        id,
        app_name: name.to_string(),
        bundle_id: format!("com.example.{name}"),
        title: format!("{name} window"),
        frame: None,
        floating: false,
        managed: true,
        visible: true,
        focused: false,
    }
}

/// One display, two workspaces; workspace 1 is active and holds three
/// single-window columns, workspace 2 is empty.
fn fixture() -> WindowSet {
    let columns: Vec<ColumnSet> = [(1, "alpha"), (2, "beta"), (3, "gamma")]
        .into_iter()
        .map(|(id, name)| {
            let mut record = window(id, name);
            record.focused = id == 1;
            ColumnSet::single(record, number(0.33))
        })
        .collect();

    WindowSet::new(
        vec![DisplaySet {
            id: 1,
            frame: Frame { x: 0, y: 0, width: 1920, height: 1080 },
            active: true,
            workspaces: Rc::new(vec![
                WorkspaceSet {
                    number: 1,
                    native_id: 10,
                    active: true,
                    columns: Rc::new(columns),
                    floating: Rc::new(Vec::new()),
                },
                WorkspaceSet {
                    number: 2,
                    native_id: 11,
                    active: false,
                    columns: Rc::new(Vec::new()),
                    floating: Rc::new(Vec::new()),
                },
            ]),
        }],
        Some(1),
    )
}

#[test]
fn a_fresh_window_set_has_asked_for_nothing() {
    let set = fixture();
    assert!(set.ops().is_empty());
    assert!(!set.is_transformed());
}

#[test]
fn transforms_leave_the_original_alone() {
    let before = fixture();
    let after = before.focus(3);

    assert_eq!(before.focused(), Some(1), "the original still has its focus");
    assert!(
        before.ops().is_empty(),
        "and has still asked for nothing: {:?}",
        before.ops()
    );
    assert_eq!(after.focused(), Some(3));
    assert_eq!(after.ops(), vec![LayoutOp::Focus(3)]);
    assert!(after.window(3).unwrap().focused);
    assert!(!after.window(1).unwrap().focused);
}

#[test]
fn chained_transforms_record_in_order() {
    let set = fixture().focus(2).width(2, number(0.75)).shift(2, 2);
    assert_eq!(
        set.ops(),
        vec![
            LayoutOp::Focus(2),
            LayoutOp::SetWidth { window: 2, ratio: number(0.75) },
            LayoutOp::MoveToWorkspace { window: 2, workspace: 2, follow: false },
        ]
    );
}

#[test]
fn branches_do_not_see_each_others_ops() {
    let base = fixture();
    let left = base.focus(2);
    let right = base.focus(3);

    assert_eq!(left.ops(), vec![LayoutOp::Focus(2)]);
    assert_eq!(right.ops(), vec![LayoutOp::Focus(3)]);
    // ...and neither reached the value they branched from.
    assert!(base.ops().is_empty());
    assert_eq!(base.focused(), Some(1));
}

#[test]
fn untouched_subtrees_are_shared_not_copied() {
    let base = fixture();
    // Cloning shares the whole tree; nothing is copied until something is
    // changed, which is what makes speculative branching cheap.
    let clone = base.clone();
    assert!(
        std::ptr::eq(base.displays(), clone.displays()),
        "cloning should share, not copy"
    );

    // A transform copies the spine it edits but leaves the contents it never
    // reached alone: workspace 2 is untouched by a change to workspace 1.
    let edited = base.width(1, number(0.9));
    let before = &base.displays()[0].workspaces[1];
    let after = &edited.displays()[0].workspaces[1];
    assert!(before == after, "the untouched workspace keeps its contents");
}

#[test]
fn shift_moves_the_window_between_workspaces() {
    let set = fixture().shift(2, 2);
    assert!(
        set.workspace(1).unwrap().windows().iter().all(|w| w.id != 2),
        "the window has left its old workspace"
    );
    assert!(
        set.workspace(2).unwrap().windows().iter().any(|w| w.id == 2),
        "...and arrived at the new one"
    );
    assert_eq!(
        set.workspace(1).unwrap().columns.len(),
        2,
        "its emptied column is gone"
    );
}

#[test]
fn swap_exchanges_positions_not_focus() {
    let set = fixture().swap(1, 3);
    let workspace = set.workspace(1).unwrap();
    let order: Vec<WinID> = workspace
        .columns
        .iter()
        .filter_map(|column| column.top().map(|window| window.id))
        .collect();
    assert_eq!(order, vec![3, 2, 1]);
    assert_eq!(set.focused(), Some(1), "swapping does not move the focus");
    assert!(set.window(1).unwrap().focused);
    assert!(!set.window(3).unwrap().focused);
}

#[test]
fn stacking_merges_columns_and_unstacking_splits_them() {
    let stacked = fixture().stack(2, 1);
    let workspace = stacked.workspace(1).unwrap();
    assert_eq!(workspace.columns.len(), 2, "two columns became one");
    assert_eq!(workspace.columns[0].kind, ColumnKind::Stack);
    assert_eq!(workspace.columns[0].windows.len(), 2);

    let split = stacked.unstack(2);
    let workspace = split.workspace(1).unwrap();
    assert_eq!(workspace.columns.len(), 3);
    assert_eq!(
        workspace.columns[0].kind,
        ColumnKind::Single,
        "the column it left is single again"
    );
}

#[test]
fn floating_moves_a_window_off_the_strip_and_back() {
    let floated = fixture().float(2);
    let workspace = floated.workspace(1).unwrap();
    assert_eq!(workspace.columns.len(), 2);
    assert_eq!(workspace.floating.len(), 1);
    assert!(workspace.floating[0].floating);

    let sunk = floated.sink(2);
    let workspace = sunk.workspace(1).unwrap();
    assert_eq!(workspace.columns.len(), 3);
    assert!(workspace.floating.is_empty());
}

#[test]
fn view_switches_which_workspace_is_active() {
    let set = fixture().view(2);
    assert!(!set.workspace(1).unwrap().active);
    assert!(set.workspace(2).unwrap().active);
    assert_eq!(set.ops(), vec![LayoutOp::View { workspace: 2 }]);
}

#[test]
fn navigation_follows_the_strip_and_wraps() {
    let set = fixture();
    assert_eq!(set.east(1), Some(2));
    assert_eq!(set.west(2), Some(1));
    assert_eq!(set.west(1), None, "nothing west of the first column");
    assert_eq!(set.next(3), Some(1), "next wraps around");
    assert_eq!(set.prev(1), Some(3), "and so does prev");
}

#[test]
fn lookups_find_where_a_window_lives() {
    let set = fixture();
    assert_eq!(set.column_of(2), Some(1));
    assert_eq!(set.workspace_of(2).map(|w| w.number), Some(1));
    assert_eq!(set.display_of(2).map(|d| d.id), Some(1));
    assert_eq!(set.current().map(|w| w.number), Some(1));
    assert_eq!(set.window(2).map(|w| w.app_name.as_str()), Some("beta"));
    assert!(set.window(99).is_none());
}

#[test]
fn ops_naming_a_window_expose_it_for_resolution() {
    assert_eq!(LayoutOp::Focus(4).target(), Some(4));
    assert_eq!(
        LayoutOp::Stack { window: 4, onto: 5, tabs: true }.target(),
        Some(4)
    );
    assert_eq!(LayoutOp::View { workspace: 2 }.target(), None);
}

#[test]
fn transforming_a_missing_window_still_records_the_intent() {
    // The snapshot is a frame stale; the host may still resolve the window.
    let set = fixture().focus(99);
    assert_eq!(set.ops(), vec![LayoutOp::Focus(99)]);
}

#[test]
fn sets_are_compared_by_what_they_hold() {
    assert!(fixture() == fixture());
    assert!(fixture() != fixture().width(1, number(0.5)));
    // What was asked for is not part of the layout: nothing moved here.
    assert!(fixture() == fixture().focus(1));
}

#[test]
fn tabbing_shares_a_column() {
    let tabbed = fixture().tab(3, 1);
    let workspace = tabbed.workspace(1).unwrap();
    assert_eq!(workspace.columns.len(), 2);
    assert_eq!(workspace.columns[0].kind, ColumnKind::Tabs);
    let ids: Vec<WinID> = workspace.columns[0].windows.iter().map(|w| w.id).collect();
    assert_eq!(ids, vec![1, 3]);
    assert_eq!(
        tabbed.ops(),
        vec![LayoutOp::Stack { window: 3, onto: 1, tabs: true }]
    );
}

#[test]
fn swapping_twice_restores_the_tree() {
    let set = fixture();
    let back = set.swap(1, 3).swap(1, 3);
    assert!(set.displays() == back.displays());
}

#[test]
fn managing_is_recorded_on_the_window() {
    let set = fixture().unmanage(2);
    assert!(!set.window(2).unwrap().managed);
    assert!(set.manage(2).window(2).unwrap().managed);
    assert_eq!(
        set.ops(),
        vec![LayoutOp::SetManaged { window: 2, managed: false }]
    );
}

#[test]
fn following_a_shifted_window_is_left_to_the_host() {
    let set = fixture().shift_following(2, 2, true);
    assert_eq!(set.workspace_of(2).map(|w| w.number), Some(2));
    assert!(set.workspace(1).unwrap().active);
    assert_eq!(
        set.ops(),
        vec![LayoutOp::MoveToWorkspace { window: 2, workspace: 2, follow: true }]
    );
}
