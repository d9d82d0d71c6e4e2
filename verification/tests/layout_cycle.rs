//! The cycle of layouts and saved arrangements.

use remux::layout::LayoutNode;
use remux::layout_modes::{
    next_layout_mode, BspLayout, CustomLayout, GridLayout, LayoutMode, MasterLayout, MonocleLayout,
};
use remux::tab::saved_custom_is_restorable;

#[test]
fn next_layout_mode_automatic_cycle() {
    // Bsp -> Master -> Monocle -> Grid regardless of the saved-custom flag.
    assert!(matches!(
        next_layout_mode(&LayoutMode::Bsp(BspLayout), false),
        LayoutMode::Master(_)
    ));
    assert!(matches!(
        next_layout_mode(&LayoutMode::Master(MasterLayout::default()), false),
        LayoutMode::Monocle(_)
    ));
    // Monocle now always advances to Grid, even with a saved custom layout.
    assert!(matches!(
        next_layout_mode(&LayoutMode::Monocle(MonocleLayout), false),
        LayoutMode::Grid(_)
    ));
    assert!(matches!(
        next_layout_mode(&LayoutMode::Monocle(MonocleLayout), true),
        LayoutMode::Grid(_)
    ));
}

#[test]
fn next_layout_mode_custom_starts_cycle_at_bsp() {
    assert!(matches!(
        next_layout_mode(&LayoutMode::Custom(CustomLayout), false),
        LayoutMode::Bsp(_)
    ));
}

#[test]
fn next_layout_mode_grid_returns_to_custom_only_when_saved() {
    // Grid is the last automatic before wrap. With a restorable saved custom
    // layout, it wraps back to Custom.
    assert!(matches!(
        next_layout_mode(&LayoutMode::Grid(GridLayout), true),
        LayoutMode::Custom(_)
    ));
    // Without one, Grid wraps to Bsp as usual.
    assert!(matches!(
        next_layout_mode(&LayoutMode::Grid(GridLayout), false),
        LayoutMode::Bsp(_)
    ));
}

/// A two-pane custom stack whose traversal order differs from the caller's
/// `pane_order` (panes `[2, 1]` vs insertion order `[1, 2]`).
fn custom_stack_2_1() -> LayoutNode {
    LayoutNode::Stack {
        panes: vec![2, 1],
        names: vec![],
        custom_names: vec![],
        active: 0,
    }
}

#[test]
fn saved_custom_restorable_ignores_pane_order() {
    // Same set, different order -> restorable.
    let saved = Some(custom_stack_2_1());
    assert!(saved_custom_is_restorable(&saved, &[1, 2]));
}

#[test]
fn saved_custom_not_restorable_when_pane_added() {
    let saved = Some(custom_stack_2_1());
    assert!(!saved_custom_is_restorable(&saved, &[1, 2, 3]));
}

#[test]
fn saved_custom_not_restorable_when_pane_removed() {
    let saved = Some(custom_stack_2_1());
    assert!(!saved_custom_is_restorable(&saved, &[1]));
}

#[test]
fn saved_custom_not_restorable_when_none() {
    assert!(!saved_custom_is_restorable(&None, &[1, 2]));
}
