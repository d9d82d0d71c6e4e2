//! The layout tree and the automatic layouts.

use remux::geometry::{compute_layout, find_neighbor};
use remux::layout::{
    active_pane_ids, all_pane_ids, find_stack_for_pane, get_pane_custom_name, get_pane_name,
    set_pane_custom_name, set_pane_name, Direction, FocusDirection, LayoutNode, Rect,
    MIN_PANE_SIZE,
};
use remux::layout_modes::{
    BspLayout, CustomLayout, LayoutAlgorithm, LayoutMode, MasterLayout, MonocleLayout,
};
use remux::ratio::Ratio;

const MAX_RATIO: f32 = 0.9;

/// The value of a ratio.
fn value(r: &Ratio) -> f32 {
    (r.units as f64 / (1u64 << 40) as f64) as f32
}

/// A value in ratio units.
fn units(v: f32) -> i64 {
    (v as f64 * (1u64 << 40) as f64) as i64
}

/// The ratio with a value.
fn ratio_of(v: f32) -> Ratio {
    Ratio { units: units(v) as u64 }
}

#[test]
fn test_new_stack() {
    let node = LayoutNode::new_stack(1);
    match &node {
        LayoutNode::Stack {
            panes,
            names,
            active,
            ..
        } => {
            assert_eq!(panes, &[1]);
            assert_eq!(names, &[""]);
            assert_eq!(*active, 0);
        }
        _ => panic!("expected Stack"),
    }
}

#[test]
fn test_split_vertical() {
    let mut node = LayoutNode::new_stack(1);
    assert!(node.split_vertical(1, 2));

    match &node {
        LayoutNode::Split {
            direction,
            ratio,
            first,
            second,
        } => {
            assert_eq!(*direction, Direction::Vertical);
            assert!((value(ratio) - 0.5).abs() < f32::EPSILON);
            assert!(matches!(first.as_ref(), LayoutNode::Stack { panes, .. } if panes == &[1]));
            assert!(
                matches!(second.as_ref(), LayoutNode::Stack { panes, .. } if panes == &[2])
            );
        }
        _ => panic!("expected Split"),
    }
}

#[test]
fn test_split_horizontal() {
    let mut node = LayoutNode::new_stack(1);
    assert!(node.split_horizontal(1, 2));

    match &node {
        LayoutNode::Split { direction, .. } => {
            assert_eq!(*direction, Direction::Horizontal);
        }
        _ => panic!("expected Split"),
    }
}

#[test]
fn test_split_nonexistent_pane() {
    let mut node = LayoutNode::new_stack(1);
    assert!(!node.split_vertical(99, 2));
}

#[test]
fn test_nested_split() {
    let mut node = LayoutNode::new_stack(1);
    assert!(node.split_vertical(1, 2));
    assert!(node.split_horizontal(2, 3));

    let ids = all_pane_ids(&node);
    assert_eq!(ids.len(), 3);
    assert!(ids.contains(&1));
    assert!(ids.contains(&2));
    assert!(ids.contains(&3));
}

#[test]
fn test_compute_layout_single() {
    let node = LayoutNode::new_stack(1);
    let area = Rect {
        x: 0,
        y: 0,
        width: 80,
        height: 24,
    };
    let rects = compute_layout(&node, area, 0);
    assert_eq!(rects.len(), 1);
    assert_eq!(rects[0], (1, area));
}

#[test]
fn test_compute_layout_vertical_split() {
    let mut node = LayoutNode::new_stack(1);
    node.split_vertical(1, 2);
    let area = Rect {
        x: 0,
        y: 0,
        width: 80,
        height: 24,
    };
    let rects = compute_layout(&node, area, 0);
    assert_eq!(rects.len(), 2);

    let (id1, r1) = rects[0];
    let (id2, r2) = rects[1];
    assert_eq!(id1, 1);
    assert_eq!(id2, 2);
    assert_eq!(r1.x, 0);
    assert_eq!(r1.width, 40);
    assert_eq!(r2.x, 40);
    assert_eq!(r2.width, 40);
    assert_eq!(r1.height, 24);
    assert_eq!(r2.height, 24);
}

#[test]
fn test_compute_layout_horizontal_split() {
    let mut node = LayoutNode::new_stack(1);
    node.split_horizontal(1, 2);
    let area = Rect {
        x: 0,
        y: 0,
        width: 80,
        height: 24,
    };
    let rects = compute_layout(&node, area, 0);
    assert_eq!(rects.len(), 2);

    let (_, r1) = rects[0];
    let (_, r2) = rects[1];
    assert_eq!(r1.y, 0);
    assert_eq!(r1.height, 12);
    assert_eq!(r2.y, 12);
    assert_eq!(r2.height, 12);
}

#[test]
fn test_compute_layout_min_size() {
    let node = LayoutNode::Split {
        direction: Direction::Vertical,
        ratio: ratio_of(0.01),
        first: Box::new(LayoutNode::new_stack(1)),
        second: Box::new(LayoutNode::new_stack(2)),
    };
    let area = Rect {
        x: 0,
        y: 0,
        width: 10,
        height: 10,
    };
    let rects = compute_layout(&node, area, 0);
    assert!(rects[0].1.width >= MIN_PANE_SIZE);
    assert!(rects[1].1.width >= MIN_PANE_SIZE);
}

#[test]
fn test_all_pane_ids() {
    let mut node = LayoutNode::new_stack(1);
    node.split_vertical(1, 2);
    node.add_to_stack(1, 3);

    let ids = all_pane_ids(&node);
    assert_eq!(ids.len(), 3);
    assert!(ids.contains(&1));
    assert!(ids.contains(&2));
    assert!(ids.contains(&3));
}

#[test]
fn test_active_pane_ids() {
    let mut node = LayoutNode::new_stack(1);
    node.split_vertical(1, 2);
    node.add_to_stack(1, 3);

    let active = active_pane_ids(&node);
    assert_eq!(active.len(), 2);
    assert!(active.contains(&3));
    assert!(active.contains(&2));
}

#[test]
fn test_find_stack_for_pane() {
    let mut node = LayoutNode::new_stack(1);
    node.add_to_stack(1, 2);
    node.split_vertical(1, 3);

    let stack = find_stack_for_pane(&node, 2);
    assert!(stack.is_some());
    let panes = stack.unwrap();
    assert!(panes.contains(&1));
    assert!(panes.contains(&2));

    assert!(find_stack_for_pane(&node, 99).is_none());
}

#[test]
fn test_resize() {
    let mut node = LayoutNode::new_stack(1);
    node.split_vertical(1, 2);

    assert!(node.resize(1, Direction::Vertical, units(0.1)));

    match &node {
        LayoutNode::Split { ratio, .. } => {
            assert!((value(ratio) - 0.6).abs() < f32::EPSILON);
        }
        _ => panic!("expected Split"),
    }
}

#[test]
fn test_resize_clamp() {
    let mut node = LayoutNode::new_stack(1);
    node.split_vertical(1, 2);

    assert!(node.resize(1, Direction::Vertical, units(10.0)));
    match &node {
        LayoutNode::Split { ratio, .. } => {
            assert!((value(ratio) - MAX_RATIO).abs() < f32::EPSILON);
        }
        _ => panic!("expected Split"),
    }
}

#[test]
fn test_resize_wrong_direction() {
    let mut node = LayoutNode::new_stack(1);
    node.split_vertical(1, 2);

    assert!(!node.resize(1, Direction::Horizontal, units(0.1)));
}

#[test]
fn test_close_pane_stack_has_others() {
    let mut node = LayoutNode::new_stack(1);
    node.add_to_stack(1, 2);

    let next = node.close_pane(1);
    assert_eq!(next, Some(2));

    match &node {
        LayoutNode::Stack { panes, active, .. } => {
            assert_eq!(panes, &[2]);
            assert_eq!(*active, 0);
        }
        _ => panic!("expected Stack"),
    }
}

#[test]
fn test_close_pane_simplifies_tree() {
    let mut node = LayoutNode::new_stack(1);
    node.split_vertical(1, 2);

    let next = node.close_pane(1);
    assert_eq!(next, Some(2));

    match &node {
        LayoutNode::Stack { panes, .. } => {
            assert_eq!(panes, &[2]);
        }
        _ => panic!("expected Stack after tree simplification"),
    }
}

#[test]
fn test_close_last_pane() {
    let mut node = LayoutNode::new_stack(1);
    let next = node.close_pane(1);
    assert_eq!(next, None);
}

#[test]
fn test_add_to_stack() {
    let mut node = LayoutNode::new_stack(1);
    assert!(node.add_to_stack(1, 2));

    match &node {
        LayoutNode::Stack {
            panes,
            names,
            active,
            ..
        } => {
            assert_eq!(panes, &[1, 2]);
            assert_eq!(names, &["", ""]);
            assert_eq!(*active, 1);
        }
        _ => panic!("expected Stack"),
    }
}

#[test]
fn test_stack_next() {
    let mut node = LayoutNode::new_stack(1);
    node.add_to_stack(1, 2);
    node.add_to_stack(2, 3);

    assert_eq!(node.stack_next(3), Some(1));
    assert_eq!(node.stack_next(1), Some(2));
}

#[test]
fn test_stack_prev() {
    let mut node = LayoutNode::new_stack(1);
    node.add_to_stack(1, 2);
    node.add_to_stack(2, 3);

    assert_eq!(node.stack_prev(1), Some(3));
    assert_eq!(node.stack_prev(3), Some(2));
}

#[test]
fn test_stack_single_pane_cycle() {
    let mut node = LayoutNode::new_stack(1);
    assert_eq!(node.stack_next(1), Some(1));
    assert_eq!(node.stack_prev(1), Some(1));
}

#[test]
fn test_active_pane() {
    let node = LayoutNode::new_stack(42);
    assert_eq!(node.active_pane(), Some(42));
}

#[test]
fn test_find_neighbor_left_right() {
    let mut node = LayoutNode::new_stack(1);
    node.split_vertical(1, 2);
    let area = Rect {
        x: 0,
        y: 0,
        width: 80,
        height: 24,
    };

    assert_eq!(
        find_neighbor(&node, area, 1, FocusDirection::Right, 0),
        Some(2)
    );
    assert_eq!(
        find_neighbor(&node, area, 2, FocusDirection::Left, 0),
        Some(1)
    );
    assert_eq!(find_neighbor(&node, area, 1, FocusDirection::Left, 0), None);
    assert_eq!(
        find_neighbor(&node, area, 2, FocusDirection::Right, 0),
        None
    );
}

#[test]
fn test_find_neighbor_up_down() {
    let mut node = LayoutNode::new_stack(1);
    node.split_horizontal(1, 2);
    let area = Rect {
        x: 0,
        y: 0,
        width: 80,
        height: 24,
    };

    assert_eq!(
        find_neighbor(&node, area, 1, FocusDirection::Down, 0),
        Some(2)
    );
    assert_eq!(
        find_neighbor(&node, area, 2, FocusDirection::Up, 0),
        Some(1)
    );
}

#[test]
fn test_compute_layout_vertical_split_with_gaps() {
    let mut node = LayoutNode::new_stack(1);
    node.split_vertical(1, 2);
    let area = Rect {
        x: 0,
        y: 0,
        width: 80,
        height: 24,
    };
    let rects = compute_layout(&node, area, 2);
    assert_eq!(rects.len(), 2);

    let (id1, r1) = rects[0];
    let (id2, r2) = rects[1];
    assert_eq!(id1, 1);
    assert_eq!(id2, 2);
    // 80 - 2 gap = 78 usable, split 50/50 = 39 each
    assert_eq!(r1.width, 39);
    assert_eq!(r2.width, 39);
    // First pane starts at 0, second starts at 39 + 2 gap = 41
    assert_eq!(r1.x, 0);
    assert_eq!(r2.x, 41);
}

#[test]
fn test_compute_layout_horizontal_split_with_gaps() {
    let mut node = LayoutNode::new_stack(1);
    node.split_horizontal(1, 2);
    let area = Rect {
        x: 0,
        y: 0,
        width: 80,
        height: 24,
    };
    let rects = compute_layout(&node, area, 2);
    assert_eq!(rects.len(), 2);

    let (_, r1) = rects[0];
    let (_, r2) = rects[1];
    // 24 - 2 gap = 22 usable, split 50/50 = 11 each
    assert_eq!(r1.height, 11);
    assert_eq!(r2.height, 11);
    assert_eq!(r1.y, 0);
    assert_eq!(r2.y, 13); // 11 + 2 gap
}

#[test]
fn test_compute_layout_nested_splits_with_gaps() {
    let mut node = LayoutNode::new_stack(1);
    node.split_vertical(1, 2);
    node.split_horizontal(2, 3);
    let area = Rect {
        x: 0,
        y: 0,
        width: 80,
        height: 24,
    };
    let rects = compute_layout(&node, area, 1);
    assert_eq!(rects.len(), 3);
    // All rects should have positive dimensions
    for (_, r) in &rects {
        assert!(r.width > 0);
        assert!(r.height > 0);
    }
}

#[test]
fn test_single_pane_no_gaps_applied() {
    let node = LayoutNode::new_stack(1);
    let area = Rect {
        x: 0,
        y: 0,
        width: 80,
        height: 24,
    };
    // Even with gap_size > 0, a single pane should occupy the full area
    let rects = compute_layout(&node, area, 5);
    assert_eq!(rects.len(), 1);
    assert_eq!(rects[0], (1, area));
}

#[test]
fn test_gap_with_min_size_enforcement() {
    // Very small area with a large gap -- min pane sizes should be enforced
    let mut node = LayoutNode::new_stack(1);
    node.split_vertical(1, 2);
    let area = Rect {
        x: 0,
        y: 0,
        width: 8,
        height: 10,
    };
    let rects = compute_layout(&node, area, 2);
    assert_eq!(rects.len(), 2);
    // Both panes should still meet minimum size
    assert!(rects[0].1.width >= MIN_PANE_SIZE);
    assert!(rects[1].1.width >= MIN_PANE_SIZE);
}

#[test]
fn test_set_pane_name() {
    let mut node = LayoutNode::new_stack(1);
    node.add_to_stack(1, 2);

    assert!(set_pane_name(&mut node, 1, "bash"));
    assert_eq!(get_pane_name(&node, 1), Some("bash".to_string()));
    // Pane 2 should still have default empty name.
    assert_eq!(get_pane_name(&node, 2), Some(String::new()));
}

#[test]
fn test_set_pane_custom_name() {
    let mut node = LayoutNode::new_stack(1);
    assert!(set_pane_custom_name(&mut node, 1, "my-custom-name"));
    assert_eq!(
        get_pane_custom_name(&node, 1),
        Some(Some("my-custom-name".to_string()))
    );
}

#[test]
fn test_name_sync_on_add_to_stack() {
    let mut node = LayoutNode::new_stack(1);
    set_pane_name(&mut node, 1, "first");
    node.add_to_stack(1, 2);

    match &node {
        LayoutNode::Stack {
            panes,
            names,
            custom_names,
            ..
        } => {
            assert_eq!(panes.len(), 2);
            assert_eq!(names.len(), 2);
            assert_eq!(custom_names.len(), 2);
            assert_eq!(names[0], "first");
            assert_eq!(names[1], ""); // newly added pane gets empty name
        }
        _ => panic!("expected Stack"),
    }
}

#[test]
fn test_name_sync_on_close_pane() {
    let mut node = LayoutNode::new_stack(1);
    node.add_to_stack(1, 2);
    node.add_to_stack(2, 3);
    set_pane_name(&mut node, 1, "first");
    set_pane_name(&mut node, 2, "second");
    set_pane_name(&mut node, 3, "third");

    // Close the middle pane.
    let next = node.close_pane(2);
    assert!(next.is_some());

    match &node {
        LayoutNode::Stack {
            panes,
            names,
            custom_names,
            ..
        } => {
            assert_eq!(panes.len(), 2);
            assert_eq!(names.len(), 2);
            assert_eq!(custom_names.len(), 2);
            assert_eq!(panes, &[1, 3]);
            assert_eq!(names, &["first", "third"]);
        }
        _ => panic!("expected Stack"),
    }
}

// -----------------------------------------------------------------------
// LayoutAlgorithm / LayoutMode tests
// -----------------------------------------------------------------------

// BSP tests

#[test]
fn test_bsp_single_pane() {
    let tree = BspLayout.build_tree(&[1], 1);
    assert!(matches!(tree, LayoutNode::Stack { ref panes, .. } if panes == &[1]));
}

#[test]
fn test_bsp_two_panes() {
    let tree = BspLayout.build_tree(&[1, 2], 1);
    match &tree {
        LayoutNode::Split {
            direction,
            ratio,
            first,
            second,
        } => {
            assert_eq!(*direction, Direction::Vertical);
            assert!((value(ratio) - 0.5).abs() < f32::EPSILON);
            assert!(matches!(first.as_ref(), LayoutNode::Stack { panes, .. } if panes == &[1]));
            assert!(
                matches!(second.as_ref(), LayoutNode::Stack { panes, .. } if panes == &[2])
            );
        }
        _ => panic!("expected Split"),
    }
}

#[test]
fn test_bsp_three_panes() {
    let tree = BspLayout.build_tree(&[1, 2, 3], 1);
    // Should be: Split(V, Stack(1), Split(H, Stack(2), Stack(3)))
    match &tree {
        LayoutNode::Split {
            direction,
            first,
            second,
            ..
        } => {
            assert_eq!(*direction, Direction::Vertical);
            assert!(matches!(first.as_ref(), LayoutNode::Stack { panes, .. } if panes == &[1]));
            match second.as_ref() {
                LayoutNode::Split {
                    direction: d2,
                    first: f2,
                    second: s2,
                    ..
                } => {
                    assert_eq!(*d2, Direction::Horizontal);
                    assert!(
                        matches!(f2.as_ref(), LayoutNode::Stack { panes, .. } if panes == &[2])
                    );
                    assert!(
                        matches!(s2.as_ref(), LayoutNode::Stack { panes, .. } if panes == &[3])
                    );
                }
                _ => panic!("expected inner Split"),
            }
        }
        _ => panic!("expected Split"),
    }
}

#[test]
fn test_bsp_five_panes() {
    let tree = BspLayout.build_tree(&[1, 2, 3, 4, 5], 1);
    let all = all_pane_ids(&tree);
    assert_eq!(all.len(), 5);
    for id in 1..=5 {
        assert!(all.contains(&id));
    }
}

// Master tests

#[test]
fn test_master_single_pane() {
    let tree = MasterLayout::default().build_tree(&[1], 1);
    assert!(matches!(tree, LayoutNode::Stack { ref panes, .. } if panes == &[1]));
}

#[test]
fn test_master_two_panes() {
    let layout = MasterLayout::default();
    let tree = layout.build_tree(&[1, 2], 1);
    match &tree {
        LayoutNode::Split {
            direction,
            ratio,
            first,
            second,
        } => {
            assert_eq!(*direction, Direction::Vertical);
            assert!((value(ratio) - 0.6).abs() < f32::EPSILON);
            assert!(matches!(first.as_ref(), LayoutNode::Stack { panes, .. } if panes == &[1]));
            assert!(
                matches!(second.as_ref(), LayoutNode::Stack { panes, .. } if panes == &[2])
            );
        }
        _ => panic!("expected Split"),
    }
}

#[test]
fn test_master_three_panes() {
    let layout = MasterLayout::default();
    let tree = layout.build_tree(&[1, 2, 3], 1);
    // Should be: Split(V, left_col(2), Split(V, master(1), right_col(3)))
    let all = all_pane_ids(&tree);
    assert_eq!(all.len(), 3);
    assert!(all.contains(&1));
    assert!(all.contains(&2));
    assert!(all.contains(&3));
}

#[test]
fn test_master_five_panes() {
    let layout = MasterLayout::default();
    let tree = layout.build_tree(&[1, 2, 3, 4, 5], 1);
    let all = all_pane_ids(&tree);
    assert_eq!(all.len(), 5);
    for id in 1..=5 {
        assert!(all.contains(&id));
    }
}

// Monocle tests

#[test]
fn test_monocle_all_panes_in_single_stack() {
    let tree = MonocleLayout.build_tree(&[1, 2, 3], 2);
    match &tree {
        LayoutNode::Stack { panes, active, .. } => {
            assert_eq!(panes, &[1, 2, 3]);
            assert_eq!(*active, 1); // pane 2 is at index 1
        }
        _ => panic!("expected Stack"),
    }
}

#[test]
fn test_monocle_active_pane_not_found_defaults_to_zero() {
    let tree = MonocleLayout.build_tree(&[1, 2, 3], 99);
    match &tree {
        LayoutNode::Stack { active, .. } => {
            assert_eq!(*active, 0);
        }
        _ => panic!("expected Stack"),
    }
}

// Mode cycling tests

#[test]
fn test_layout_mode_cycling() {
    let mode = LayoutMode::default();
    assert!(matches!(mode, LayoutMode::Bsp(_)));

    let mode = mode.next();
    assert!(matches!(mode, LayoutMode::Master(_)));

    let mode = mode.next();
    assert!(matches!(mode, LayoutMode::Monocle(_)));

    let mode = mode.next();
    assert!(matches!(mode, LayoutMode::Bsp(_)));
}

#[test]
fn test_layout_mode_custom_cycles_to_bsp() {
    let mode = LayoutMode::Custom(CustomLayout);
    let mode = mode.next();
    assert!(matches!(mode, LayoutMode::Bsp(_)));
}

#[test]
fn test_layout_mode_is_automatic() {
    assert!(LayoutMode::Bsp(BspLayout).is_automatic());
    assert!(LayoutMode::Master(MasterLayout::default()).is_automatic());
    assert!(LayoutMode::Monocle(MonocleLayout).is_automatic());
    assert!(!LayoutMode::Custom(CustomLayout).is_automatic());
}

// Stacks treated as atomic in BSP and Master

#[test]
fn test_bsp_stacks_are_atomic() {
    // Each PaneId in the input becomes exactly one Stack leaf
    let panes = vec![10, 20, 30];
    let tree = BspLayout.build_tree(&panes, 10);
    // Verify we get exactly 3 active pane IDs (one per input)
    let active = active_pane_ids(&tree);
    assert_eq!(active.len(), 3);
    assert!(active.contains(&10));
    assert!(active.contains(&20));
    assert!(active.contains(&30));
    // Verify total pane count equals active count (no hidden panes — each is a single-pane stack)
    let all = all_pane_ids(&tree);
    assert_eq!(all.len(), 3);
}

#[test]
fn test_master_stacks_are_atomic() {
    let panes = vec![10, 20, 30, 40];
    let layout = MasterLayout {
        master_idx: 0,
        master_ratio: ratio_of(0.6),
    };
    let tree = layout.build_tree(&panes, 10);
    let active = active_pane_ids(&tree);
    assert_eq!(active.len(), 4);
    let all = all_pane_ids(&tree);
    assert_eq!(all.len(), 4);
}

// Tests for PaneNew in each layout mode

#[test]
fn test_bsp_incremental_pane_add() {
    // Simulate adding panes one by one via PaneNew
    let mut pane_order = vec![1];
    let tree1 = BspLayout.build_tree(&pane_order, 1);
    assert_eq!(active_pane_ids(&tree1), vec![1]);

    pane_order.push(2);
    let tree2 = BspLayout.build_tree(&pane_order, 2);
    let active2 = active_pane_ids(&tree2);
    assert_eq!(active2.len(), 2);

    pane_order.push(3);
    let tree3 = BspLayout.build_tree(&pane_order, 3);
    let active3 = active_pane_ids(&tree3);
    assert_eq!(active3.len(), 3);
}

#[test]
fn test_master_incremental_pane_add() {
    let layout = MasterLayout {
        master_idx: 0,
        master_ratio: ratio_of(0.6),
    };
    let mut pane_order = vec![1];

    // 1 pane: single stack
    let tree1 = layout.build_tree(&pane_order, 1);
    assert_eq!(active_pane_ids(&tree1), vec![1]);

    // 2 panes: vertical split
    pane_order.push(2);
    let tree2 = layout.build_tree(&pane_order, 2);
    assert_eq!(active_pane_ids(&tree2).len(), 2);

    // 3 panes: three columns
    pane_order.push(3);
    let tree3 = layout.build_tree(&pane_order, 3);
    assert_eq!(active_pane_ids(&tree3).len(), 3);

    // 4 panes: still three columns, one side has 2
    pane_order.push(4);
    let tree4 = layout.build_tree(&pane_order, 4);
    assert_eq!(active_pane_ids(&tree4).len(), 4);
}

#[test]
fn test_monocle_incremental_pane_add() {
    let mut pane_order = vec![1];
    let tree1 = MonocleLayout.build_tree(&pane_order, 1);
    // Monocle: all panes in one stack, only active is visible
    assert_eq!(active_pane_ids(&tree1), vec![1]);
    assert_eq!(all_pane_ids(&tree1), vec![1]);

    pane_order.push(2);
    let tree2 = MonocleLayout.build_tree(&pane_order, 1);
    // Only 1 active (the focused one), but 2 total
    assert_eq!(active_pane_ids(&tree2).len(), 1);
    assert_eq!(all_pane_ids(&tree2).len(), 2);

    pane_order.push(3);
    let tree3 = MonocleLayout.build_tree(&pane_order, 2);
    assert_eq!(active_pane_ids(&tree3).len(), 1);
    assert_eq!(all_pane_ids(&tree3).len(), 3);
}

#[test]
fn test_custom_build_tree_fallback() {
    // Custom mode's build_tree delegates to BSP as a fallback
    let panes = vec![1, 2, 3];
    let custom_tree = CustomLayout.build_tree(&panes, 1);
    let bsp_tree = BspLayout.build_tree(&panes, 1);
    // Both should produce the same active pane set
    assert_eq!(active_pane_ids(&custom_tree), active_pane_ids(&bsp_tree));
}
