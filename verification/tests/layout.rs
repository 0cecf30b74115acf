//! Strips, panes and the places of windows on them.
use paneru::config::swipe::SwipeGestureDirection;
use paneru::display::{Display, DisplayBounds, Panel, WindowPane};
use paneru::errors::Error;
use paneru::events::Point;
use paneru::geometry::{Entity, IRect, IVec2};
use paneru::layout::binpack::binpack_heights;
use paneru::layout::viewport::{
    apply_scroll_physics, clamp_viewport_offset, finger_lifted, is_stacked, layout_sizes_changed,
    layout_strip_changed, position_layout_strips, position_layout_windows, reshuffle_layout_strip,
    LayoutChange, ScrollStep, Slivers,
};
use paneru::layout::{Column, LayoutStrip};
use paneru::number::Number;
use paneru::scroll::viewport::ColumnMetrics;

fn entities(count: u64) -> Vec<Entity> {
    (0..count).map(Entity).collect()
}

fn setup_strip() -> (LayoutStrip, Vec<Entity>) {
    let entities = entities(3);
    let mut strip = LayoutStrip::default();
    strip.append(entities[0]);
    strip.append(entities[1]);
    strip.append(entities[2]);
    (strip, entities)
}

fn setup_pane() -> (WindowPane, Vec<Entity>) {
    let entities = entities(3);
    let mut pane = WindowPane::default();
    pane.append(entities[0]);
    pane.append(entities[1]);
    pane.append(entities[2]);
    (pane, entities)
}

#[test]
fn display_test_window_pane_index_of() {
    let (pane, entities) = setup_pane();
    assert_eq!(pane.index_of(entities[0]).unwrap(), 0);
    assert_eq!(pane.index_of(entities[1]).unwrap(), 1);
    assert_eq!(pane.index_of(entities[2]).unwrap(), 2);
}

#[test]
fn display_test_window_pane_swap() {
    let (mut pane, entities) = setup_pane();
    pane.swap(0, 2);
    assert_eq!(pane.index_of(entities[2]).unwrap(), 0);
    assert_eq!(pane.index_of(entities[0]).unwrap(), 2);
}

#[test]
fn display_test_window_pane_stack_and_unstack() {
    let (mut pane, entities) = setup_pane();

    // Stack [1] onto [0]
    pane.stack(entities[1]).unwrap();
    assert_eq!(pane.len(), 2);
    assert_eq!(pane.index_of(entities[0]).unwrap(), 0);
    assert_eq!(pane.index_of(entities[1]).unwrap(), 0); // Both in the same panel

    // Check internal structure
    match pane.get(0).unwrap() {
        Panel::Stack(stack) => {
            assert_eq!(stack.len(), 2);
            assert_eq!(stack[0], entities[0]);
            assert_eq!(stack[1], entities[1]);
        }
        Panel::Single(_) => panic!("Expected a stack"),
    }

    // Unstack [0]
    pane.unstack(entities[0]).unwrap();
    assert_eq!(pane.len(), 3);
    assert_eq!(pane.index_of(entities[1]).unwrap(), 0);
    assert_eq!(pane.index_of(entities[0]).unwrap(), 1);
    assert_eq!(pane.index_of(entities[2]).unwrap(), 2);
}

#[test]
fn layout_test_window_pane_index_of() {
    let (strip, entities) = setup_strip();
    assert_eq!(strip.index_of(entities[0]).unwrap(), 0);
    assert_eq!(strip.index_of(entities[1]).unwrap(), 1);
    assert_eq!(strip.index_of(entities[2]).unwrap(), 2);
}

#[test]
fn layout_test_window_pane_swap() {
    let (mut strip, entities) = setup_strip();
    strip.swap(0, 2);
    assert_eq!(strip.index_of(entities[2]).unwrap(), 0);
    assert_eq!(strip.index_of(entities[0]).unwrap(), 2);
}

#[test]
fn layout_test_window_pane_stack_and_unstack() {
    let (mut strip, entities) = setup_strip();

    // Stack [1] onto [0]
    strip.stack(entities[1]).unwrap();
    assert_eq!(strip.len(), 2);
    assert_eq!(strip.index_of(entities[0]).unwrap(), 0);
    assert_eq!(strip.index_of(entities[1]).unwrap(), 0); // Both in the same panel

    // Check internal structure
    match strip.get(0).unwrap() {
        Column::Stack(stack) => {
            assert_eq!(stack.len(), 2);
            assert_eq!(stack[0], entities[0]);
            assert_eq!(stack[1], entities[1]);
        }
        Column::Single(_) => panic!("Expected a stack"),
    }

    // Unstack [0]
    strip.unstack(entities[0]).unwrap();
    assert_eq!(strip.len(), 3);
    assert_eq!(strip.index_of(entities[1]).unwrap(), 0);
    assert_eq!(strip.index_of(entities[0]).unwrap(), 1);
    assert_eq!(strip.index_of(entities[2]).unwrap(), 2);
}

#[test]
fn test_binpack() {
    const MIN_HEIGHT: i32 = 100;
    let heights = [300, 300, 300, 300];

    let out = binpack_heights(&heights, MIN_HEIGHT, 1500).unwrap();
    assert_eq!(out, vec![300, 300, 300, 600]);

    let out = binpack_heights(&heights, MIN_HEIGHT, 1024).unwrap();
    assert_eq!(out, vec![300, 300, 300, 124]);

    let out = binpack_heights(&heights, MIN_HEIGHT, 800).unwrap();
    assert_eq!(out, vec![300, 300, 100, 100]);

    let out = binpack_heights(&heights, MIN_HEIGHT, 440).unwrap();
    assert_eq!(out, vec![110, 110, 110, 110]);

    let out = binpack_heights(&heights, MIN_HEIGHT, 390);
    assert_eq!(out, None);
}

#[test]
fn test_layout_positioning() {
    let entities = entities(4);
    let sizes = [
        IRect::new(0, 0, 300, 300),
        IRect::new(0, 0, 300, 300),
        IRect::new(0, 0, 300, 300),
        IRect::new(0, 0, 300, 300),
    ];

    let mut strip = LayoutStrip::default();
    strip.append(entities[0]);
    strip.append(entities[1]);
    strip.append(entities[2]);
    strip.append(entities[3]);

    _ = strip.stack(entities[2]);
    let get_window_frame = |_: Entity| Some(sizes[0]);
    let out = strip.relative_positions(500, &get_window_frame);

    let xpos = out.iter().map(|(_, frame)| frame.min.x).collect::<Vec<_>>();
    assert_eq!(xpos, vec![0, 300, 300, 600]);

    let height = out
        .iter()
        .map(|(_, frame)| frame.height())
        .collect::<Vec<_>>();
    assert_eq!(height, vec![500, 300, 200, 500]);
}

/// Every single-column window must fill the full viewport height.
#[test]
fn test_layout_singles_get_full_viewport_height() {
    let entities = entities(3);
    let mut strip = LayoutStrip::default();
    for &e in &entities {
        strip.append(e);
    }

    let get_window_frame = |_: Entity| Some(IRect::new(0, 0, 300, 400));
    let out = strip.relative_positions(800, &get_window_frame);

    assert_eq!(out.len(), 3);
    for (_, f) in &out {
        assert_eq!(f.height(), 800, "single window should fill viewport height");
        assert_eq!(f.min.y, 0);
    }
    // x positions: 0, 300, 600
    let xs: Vec<_> = out.iter().map(|(_, f)| f.min.x).collect();
    assert_eq!(xs, vec![0, 300, 600]);
}

/// Stacked windows share the viewport height; all use the top window's width.
#[test]
fn test_layout_stack_shares_height_and_width() {
    let entities = entities(4);
    let mut strip = LayoutStrip::default();
    for &e in &entities {
        strip.append(e);
    }
    // Stack e1, e2 onto e0: [Stack(e0, e1, e2), Single(e3)]
    strip.stack(entities[1]).unwrap();
    strip.stack(entities[2]).unwrap();

    // Give different heights; top window (e0) is 400px wide, others 300px.
    let get_window_frame = |e: Entity| {
        if e == entities[0] {
            Some(IRect::new(0, 0, 400, 200))
        } else if e == entities[1] || e == entities[2] {
            Some(IRect::new(0, 0, 300, 200))
        } else {
            Some(IRect::new(0, 0, 400, 500))
        }
    };

    let out = strip.relative_positions(600, &get_window_frame);
    assert_eq!(out.len(), 4);

    // All stacked windows use the top window's width (400).
    for &(e, ref f) in &out {
        if e == entities[0] || e == entities[1] || e == entities[2] {
            assert_eq!(
                f.width(),
                400,
                "stacked window should use top window's width"
            );
        }
    }

    // Stacked heights should sum to viewport height.
    let stack_heights: i32 = out
        .iter()
        .filter(|(e, _)| *e != entities[3])
        .map(|(_, f)| f.height())
        .sum();
    assert_eq!(stack_heights, 600, "stack heights must sum to viewport");

    // Stacked y positions should be contiguous from 0.
    let stack_frames: Vec<_> = out
        .iter()
        .filter(|(e, _)| *e != entities[3])
        .map(|(_, f)| *f)
        .collect();
    assert_eq!(stack_frames[0].min.y, 0);
    assert_eq!(stack_frames[0].max.y, stack_frames[1].min.y);
    assert_eq!(stack_frames[1].max.y, stack_frames[2].min.y);
    assert_eq!(stack_frames[2].max.y, 600);

    // e3 (single) gets full viewport height.
    let e3_frame = out.iter().find(|(e, _)| *e == entities[3]).unwrap().1;
    assert_eq!(e3_frame.height(), 600);
}

/// Unstacking a window from a stack gives it its own column with full height.
#[test]
fn test_layout_unstack_gives_full_height() {
    let entities = entities(3);
    let mut strip = LayoutStrip::default();
    for &e in &entities {
        strip.append(e);
    }
    // [Stack(e0, e1), Single(e2)]
    strip.stack(entities[1]).unwrap();

    let get_window_frame = |_: Entity| Some(IRect::new(0, 0, 300, 250));

    // Before unstack: e0 and e1 share 500px height.
    let out = strip.relative_positions(500, &get_window_frame);
    let e1_height = out
        .iter()
        .find(|(e, _)| *e == entities[1])
        .unwrap()
        .1
        .height();
    assert!(e1_height < 500, "stacked e1 should not have full height");

    // Unstack e1: [Single(e0), Single(e1), Single(e2)]
    strip.unstack(entities[1]).unwrap();
    assert_eq!(strip.len(), 3);

    let out = strip.relative_positions(500, &get_window_frame);
    for (_, f) in &out {
        assert_eq!(
            f.height(),
            500,
            "after unstack every single column gets full viewport height"
        );
    }
}

/// Re-stacking after unstack restores shared height distribution.
#[test]
fn test_layout_restack_restores_shared_heights() {
    let entities = entities(2);
    let mut strip = LayoutStrip::default();
    strip.append(entities[0]);
    strip.append(entities[1]);

    let get_window_frame = |_: Entity| Some(IRect::new(0, 0, 300, 250));

    // Stack: [Stack(e0, e1)]
    strip.stack(entities[1]).unwrap();
    let out = strip.relative_positions(500, &get_window_frame);
    let heights: Vec<_> = out.iter().map(|(_, f)| f.height()).collect();
    assert_eq!(heights.iter().sum::<i32>(), 500);
    assert_eq!(heights.len(), 2);

    // Unstack: [Single(e0), Single(e1)]
    strip.unstack(entities[1]).unwrap();
    let out = strip.relative_positions(500, &get_window_frame);
    for (_, f) in &out {
        assert_eq!(f.height(), 500);
    }

    // Re-stack: [Stack(e0, e1)] — e1 stacks onto left neighbor e0
    strip.stack(entities[1]).unwrap();
    let out = strip.relative_positions(500, &get_window_frame);
    let heights: Vec<_> = out.iter().map(|(_, f)| f.height()).collect();
    assert_eq!(heights.iter().sum::<i32>(), 500);
    assert_eq!(heights.len(), 2);
}

#[test]
fn inserting_past_the_end_appends_once() {
    let (mut strip, entities) = setup_strip();
    strip.insert_at(9, Entity(7));
    assert_eq!(strip.len(), 4);
    assert_eq!(strip.index_of(Entity(7)).unwrap(), 3);
    strip.insert_at(1, Entity(8));
    assert_eq!(
        strip.all_windows(),
        vec![entities[0], Entity(8), entities[1], entities[2], Entity(7)]
    );
}

#[test]
fn a_missing_window_is_an_error_that_says_so() {
    let (mut strip, _) = setup_strip();
    let message = "Not found: index_of: can not find window 9 in the current pane.";
    assert_eq!(strip.index_of(Entity(9)).unwrap_err().text(), message);
    assert_eq!(strip.stack(Entity(9)).unwrap_err().text(), message);
    assert_eq!(strip.unstack(Entity(9)).unwrap_err().text(), message);
    assert_eq!(strip.get(3).unwrap_err().text(), "Invalid input: get: 3 out of bounds");
    assert_eq!(
        strip.get(1047).unwrap_err().text(),
        "Invalid input: get: 1047 out of bounds"
    );
    let empty = LayoutStrip::default();
    assert!(matches!(empty.first(), Err(Error::NotFound(_))));
    assert!(matches!(empty.last(), Err(Error::NotFound(_))));
}

#[test]
fn removing_from_a_stack_of_two_leaves_a_single_window() {
    let (mut strip, entities) = setup_strip();
    strip.stack(entities[1]).unwrap();
    strip.remove(entities[0]);
    assert!(matches!(strip.get(0).unwrap(), Column::Single(e) if e == entities[1]));
    strip.remove(entities[1]);
    assert_eq!(strip.all_windows(), vec![entities[2]]);
}

#[test]
fn panels_are_visited_from_the_nearest_on() {
    let (mut pane, entities) = setup_pane();
    pane.append(Entity(3));
    let right: Vec<_> = pane
        .access_right_of(entities[1])
        .unwrap()
        .iter()
        .map(|panel| panel.top())
        .collect();
    assert_eq!(right, vec![Some(entities[2]), Some(Entity(3))]);
    let left: Vec<_> = pane
        .access_left_of(entities[2])
        .unwrap()
        .iter()
        .map(|panel| panel.top())
        .collect();
    assert_eq!(left, vec![Some(entities[1]), Some(entities[0])]);
    assert!(pane.access_left_of(Entity(9)).is_err());
    assert!(pane.access_right_of(Entity(9)).is_err());
}

#[test]
fn a_display_keeps_a_pane_for_each_space() {
    let zero = Number { bits: 0 };
    let bounds = DisplayBounds { origin: Point { x: zero, y: zero }, width: zero, height: zero };
    let mut display = Display::new(4, vec![7, 8, 7], bounds, 25);
    assert_eq!(display.id(), 4);
    assert_eq!(display.spaces.len(), 2);
    display.active_panel_mut(7).unwrap().append(Entity(1));
    display.active_panel_mut(8).unwrap().append(Entity(1));
    display.active_panel_mut(8).unwrap().append(Entity(2));
    assert_eq!(display.active_panel(7).unwrap().all_windows(), vec![Entity(1)]);
    display.remove_window(Entity(1));
    assert_eq!(display.active_panel(7).unwrap().len(), 0);
    assert_eq!(display.active_panel(8).unwrap().all_windows(), vec![Entity(2)]);
    assert_eq!(
        display.active_panel(9).unwrap_err().text(),
        "Not found: active_panel: no such space."
    );
    assert_eq!(
        display.active_panel_mut(9).unwrap_err().text(),
        "Not found: active_panel_mut: no such space."
    );
}

#[test]
fn a_changed_size_places_all_windows_of_its_strip() {
    let (strip, entities) = setup_strip();
    let frame = |_: Entity| Some(IRect::new(0, 0, 300, 400));
    assert!(layout_sizes_changed(&vec![Entity(9)], &strip, 800, &frame).is_none());
    let placed = layout_sizes_changed(&vec![Entity(9), entities[1]], &strip, 800, &frame).unwrap();
    let corners: Vec<IVec2> = placed.iter().map(|(_, f)| f.min).collect();
    assert_eq!(
        corners,
        vec![IVec2::new(0, 0), IVec2::new(300, 0), IVec2::new(600, 0)]
    );
    assert_eq!(
        position_layout_strips(&vec![strip.clone(), LayoutStrip::default(), strip]),
        vec![entities[0], entities[1], entities[2], entities[0], entities[1], entities[2]]
    );
}

#[test]
fn a_moving_strip_is_lifted_moved_or_stopped() {
    let column = |x: i32| ColumnMetrics { position: Some(x), top_width: Some(600), width: Some(600) };
    let columns = vec![column(0), column(600), column(1200)];
    let viewport = IRect::new(0, 0, 1000, 800);
    let natural = SwipeGestureDirection::Natural;
    let step = |swiping, idle, shift, columns: &Vec<ColumnMetrics>, direction| {
        apply_scroll_physics(swiping, idle, 0, shift, columns, &viewport, direction, false)
    };
    assert_eq!(step(true, 50_000_001, 100, &columns, natural), ScrollStep::Lifted);
    assert_eq!(step(true, 50_000_000, 100, &columns, natural), ScrollStep::Moved(-100));
    assert_eq!(step(false, 0, 5000, &columns, natural), ScrollStep::Moved(-800));
    assert_eq!(
        step(false, 0, 100, &columns, SwipeGestureDirection::Reversed),
        ScrollStep::Moved(0)
    );
    assert_eq!(step(false, 0, 100, &Vec::new(), natural), ScrollStep::Stopped);
}

#[test]
fn neighbours_are_at_the_same_height_where_they_can_be() {
    let all = entities(4);
    let mut strip = LayoutStrip::default();
    for window in &all {
        strip.append(*window);
    }
    // Columns: [0, 1], [2], [3].
    strip.stack(all[1]).unwrap();
    assert_eq!(strip.right_neighbour(all[1]), Some(all[2]));
    assert_eq!(strip.left_neighbour(all[2]), Some(all[0]));
    assert_eq!(strip.left_neighbour(all[0]), None);
    assert_eq!(strip.right_neighbour(all[3]), None);
    assert_eq!(strip.above(all[1]), Some(all[0]));
    assert_eq!(strip.above(all[0]), None);
    assert_eq!(strip.all_columns(), vec![all[0], all[2], all[3]]);
    let column = strip.get(0).unwrap();
    assert_eq!(column.position_of(all[1]), Some(1));
    assert_eq!(column.position_of(all[2]), None);
    assert_eq!(column.at_or_last(7), Some(all[1]));
    assert_eq!(column.at_or_last(0), Some(all[0]));
    assert!(is_stacked(&strip, all[0]) && !is_stacked(&strip, all[2]));
}

#[test]
fn columns_are_side_by_side() {
    let (strip, all) = setup_strip();
    let frame = |entity: Entity| {
        (entity != all[1]).then(|| IRect::new(0, 0, 100 * (entity.0 as i32 + 1), 50))
    };
    let edges = strip.column_positions(&frame);
    assert_eq!(edges.iter().map(|(_, left)| *left).collect::<Vec<_>>(), vec![0, 100]);
    let changes = layout_strip_changed(&strip, 500, &frame);
    assert_eq!(
        changes,
        vec![
            LayoutChange {
                entity: all[0],
                position: IVec2::new(0, 0),
                size: IVec2::new(100, 500),
            },
            LayoutChange {
                entity: all[2],
                position: IVec2::new(100, 0),
                size: IVec2::new(300, 500),
            },
        ]
    );
}

#[test]
fn a_window_is_brought_into_view() {
    let display = IRect::new(0, 0, 1000, 800);
    let at = IVec2::new(300, 20);
    let strip = |frame: IRect| reshuffle_layout_strip(&frame, &display, at);
    assert_eq!(strip(IRect::new(800, 20, 1200, 820)), IVec2::new(300, 0));
    assert_eq!(strip(IRect::new(-100, 20, 300, 820)), IVec2::new(-300, 0));
    assert_eq!(strip(IRect::new(100, 20, 500, 820)), IVec2::new(-200, 0));
}

#[test]
fn a_sliver_of_a_window_out_of_view_stays() {
    let viewport = IRect::new(0, 0, 1000, 800);
    let slivers = Slivers { width: 5, pad_left: 2, pad_right: 3, inset: 10 };
    let place = IRect::new(0, 0, 400, 800);
    let shown = |x, swiping, stacked| {
        position_layout_windows(&place, IVec2::new(x, 0), &viewport, &slivers, 1, swiping, stacked)
    };
    assert_eq!(shown(100, false, false), IRect::new(100, 10, 500, 810));
    assert_eq!(shown(100, true, false), IRect::new(100, 0, 500, 800));
    assert_eq!(shown(100, false, true), IRect::new(100, 0, 500, 800));
    assert_eq!(shown(-700, true, false).min.x, -400 + 5 - 2 + 1);
    assert_eq!(shown(1200, true, false).min.x, 1000 - 5 + 3 - 1);
}

#[test]
fn a_shifted_strip_stays_between_its_ends() {
    let viewport = IRect::new(0, 0, 1000, 800);
    let column = |position, width| ColumnMetrics {
        position: Some(position),
        top_width: Some(width),
        width: Some(width),
    };
    let columns = vec![column(0, 800), column(800, 800)];
    let natural = SwipeGestureDirection::Natural;
    let reversed = SwipeGestureDirection::Reversed;
    let clamp = |shift, direction, continuous| {
        clamp_viewport_offset(-100, shift, &columns, &viewport, direction, continuous)
    };
    assert_eq!(clamp(50, natural, false), Some(-150));
    assert_eq!(clamp(50, reversed, false), Some(-50));
    assert_eq!(clamp(900, natural, false), Some(-600));
    assert_eq!(clamp(900, natural, true), Some(-800));
    assert_eq!(clamp(900, reversed, false), Some(0));
    assert!(finger_lifted(true, 50_000_001));
    assert!(!finger_lifted(true, 50_000_000) && !finger_lifted(false, u64::MAX));
}

#[test]
fn rectangles_have_a_middle() {
    let rect = IRect::from_corners(IVec2::new(10, -5), IVec2::new(0, 0));
    assert_eq!(rect, IRect::new(0, -5, 10, 0));
    assert_eq!(rect.center(), IVec2::new(5, -2));
}

#[test]
fn a_prefix_keeps_its_heights_and_the_rest_is_even() {
    assert_eq!(binpack_heights(&[300, 250, 400], 200, 1000), Some(vec![300, 250, 450]));
    assert_eq!(binpack_heights(&[300, 400, 400], 200, 800), Some(vec![300, 250, 250]));
    // Too low for all of them.
    assert_eq!(binpack_heights(&[300, 250, 400], 200, 599), None);
}

#[test]
fn removing_a_window_keeps_the_others_in_order() {
    let (mut strip, entities) = setup_strip();
    strip.append(Entity(70));
    strip.stack(entities[1]).unwrap();
    strip.remove(entities[0]);
    assert_eq!(strip.all_windows(), vec![entities[1], entities[2], Entity(70)]);
    strip.remove(entities[0]);
    assert_eq!(strip.all_windows(), vec![entities[1], entities[2], Entity(70)]);
}

#[test]
fn an_appended_window_moves_no_other() {
    let (mut strip, _) = setup_strip();
    let frame = |_: Entity| Some(IRect { min: IVec2::new(0, 0), max: IVec2::new(120, 400) });
    let before = strip.relative_positions(500, &frame);
    strip.append(Entity(70));
    let after = strip.relative_positions(500, &frame);
    assert_eq!(after[..before.len()], before[..]);
    assert_eq!(after.len(), before.len() + 1);
    assert_eq!(after.last().unwrap().1.min, IVec2::new(360, 0));
}
