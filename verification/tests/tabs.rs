//! Laws of tabs and sessions, on concrete ones.

use remux::config::BorderStyle;
use remux::edits::{next_tab_name, TabChange};
use remux::layout::{
    active_pane_ids, all_pane_ids, Direction, LayoutNode, PaneId,
};
use remux::layout_modes::{BspLayout, CustomLayout, LayoutMode, MasterLayout, MonocleLayout};
use remux::pointer::ClickEffect;
use remux::session::{CloseAction, Session};
use remux::tab::{saved_custom_is_restorable, PanePlacement, Tab};

fn tab(panes: &[PaneId]) -> Tab {
    let mut t = Tab::new("work", LayoutMode::Bsp(BspLayout), panes[0]);
    for p in &panes[1..] {
        t.place_pane(PanePlacement::Auto, *p);
    }
    t
}

fn session(tabs: Vec<Tab>) -> Session {
    let mut rest = tabs.into_iter();
    let first = rest.next().unwrap();
    let mut s = Session::new("main", Some("home"), BorderStyle::ZellijStyle, first, (80, 70));
    for t in rest {
        s.add_tab(t);
    }
    s
}

fn in_order(t: &Tab) -> bool {
    let mut a = all_pane_ids(&t.layout);
    let mut b = t.pane_order.clone();
    a.sort();
    b.sort();
    a == b && t.pane_order.contains(&t.focused_pane) && t.is_sound()
}

#[test]
fn a_fresh_tab_has_one_pane() {
    let t = tab(&[7]);
    assert!(in_order(&t));
    assert_eq!((t.focused_pane, t.zoomed_pane), (7, None));
    assert_eq!(t.pane_order, vec![7]);
}

#[test]
fn placing_focuses_the_new_pane() {
    for placement in [
        PanePlacement::SplitVertical,
        PanePlacement::SplitHorizontal,
        PanePlacement::Stack,
        PanePlacement::Auto,
    ] {
        let mut t = tab(&[1, 2]);
        t.place_pane(placement, 9);
        assert!(in_order(&t));
        assert_eq!(t.focused_pane, 9);
        assert_eq!(t.pane_order, vec![1, 2, 9]);
        assert_eq!(t.layout_mode.is_automatic(), !placement.is_manual());
    }
}

#[test]
fn a_manual_placement_is_kept() {
    let mut t = tab(&[1, 2]);
    t.place_pane(PanePlacement::Stack, 3);
    assert!(matches!(t.layout_mode, LayoutMode::Custom(_)));
    assert_eq!(active_pane_ids(&t.layout), vec![1, 3]);
    t.place_pane(PanePlacement::Auto, 4);
    assert!(active_pane_ids(&t.layout).contains(&4));
    assert!(in_order(&t));
}

#[test]
fn a_split_halves_what_the_pane_had() {
    assert_eq!(PanePlacement::SplitVertical.spawn_size(80, 24), (40, 24));
    assert_eq!(PanePlacement::SplitHorizontal.spawn_size(80, 24), (80, 12));
    assert_eq!(PanePlacement::Stack.spawn_size(80, 24), (80, 24));
}

#[test]
fn closing_keeps_the_tab_in_order() {
    let mut t = tab(&[1, 2, 3]);
    t.focus_pane(2);
    assert!(t.close_pane(2));
    assert!(in_order(&t));
    assert_eq!(t.pane_order, vec![1, 3]);
    assert!(t.close_pane(1));
    assert!(!t.close_pane(3), "the last pane leaves no tab");
}

#[test]
fn closing_the_zoomed_pane_ends_the_zoom() {
    let mut t = tab(&[1, 2]);
    t.focus_pane(2);
    assert!(t.toggle_zoom());
    assert_eq!(all_pane_ids(&t.effective_layout()), vec![2]);
    t.close_pane(2);
    assert_eq!(t.zoomed_pane, None);
}

#[test]
fn a_zoom_shows_one_pane_and_can_be_undone() {
    let mut t = tab(&[1, 2, 3]);
    t.focus_pane(3);
    assert!(t.toggle_zoom());
    assert_eq!(active_pane_ids(&t.effective_layout()), vec![3]);
    assert!(t.toggle_zoom());
    assert_eq!(active_pane_ids(&t.effective_layout()), vec![1, 2, 3]);
    t.layout_mode = LayoutMode::Monocle(MonocleLayout);
    assert!(!t.toggle_zoom(), "one pane fills the tab anyway");
    assert_eq!(t.zoomed_pane, None);
}

#[test]
fn rearranging_keeps_the_tab_in_order() {
    let mut t = tab(&[1, 2, 3]);
    t.focus_pane(1);
    t.resize_focused(Direction::Vertical, 1 << 36);
    assert!(in_order(&t));
    t.place_pane(PanePlacement::Stack, 4);
    t.turn_stack(true);
    assert!(in_order(&t));
    assert_eq!(t.focused_pane, 1);
    t.rename_pane(2, "logs");
    t.activate_pane(4);
    assert!(in_order(&t));
    assert_eq!(t.focused_pane, 4);
}

#[test]
fn a_custom_arrangement_survives_the_cycle() {
    let mut t = tab(&[1, 2]);
    t.place_pane(PanePlacement::Stack, 3);
    let own = active_pane_ids(&t.layout);
    let mut steps = 0;
    loop {
        t.cycle_layout();
        steps += 1;
        assert!(in_order(&t));
        if matches!(t.layout_mode, LayoutMode::Custom(_)) {
            break;
        }
    }
    assert_eq!(steps, 5);
    assert_eq!(active_pane_ids(&t.layout), own);
}

#[test]
fn an_arrangement_of_other_panes_is_not_restored() {
    let tree = LayoutNode::new_stack(1);
    assert!(saved_custom_is_restorable(&Some(tree.duplicate()), &[1]));
    assert!(!saved_custom_is_restorable(&Some(tree), &[1, 2]));
    assert!(!saved_custom_is_restorable(&None, &[]));
}

#[test]
fn the_master_is_the_focused_pane() {
    let mut t = tab(&[1, 2, 3]);
    t.layout_mode = LayoutMode::Master(MasterLayout::default());
    t.focus_pane(3);
    t.set_master();
    match t.layout_mode {
        LayoutMode::Master(m) => assert_eq!(m.master_idx, 2),
        other => panic!("{other:?}"),
    }
    assert!(in_order(&t));
}

#[test]
fn a_list_that_disagrees_is_made_anew() {
    let mut t = tab(&[1, 2]);
    t.pane_order = Vec::new();
    t.reconcile_pane_order();
    assert_eq!(t.pane_order, vec![1, 2]);
    t.pane_order = vec![2, 1];
    t.reconcile_pane_order();
    assert_eq!(t.pane_order, vec![2, 1], "one that agrees is left alone");
}

#[test]
fn every_change_keeps_the_tab_sound() {
    let changes = vec![
        TabChange::Focus(2),
        TabChange::Place(PanePlacement::SplitVertical, 9),
        TabChange::Resize(Direction::Vertical, -(1 << 37)),
        TabChange::NextLayout,
        TabChange::SetMaster,
        TabChange::Turn(false),
        TabChange::NamePane(1, "x".to_string()),
        TabChange::NameTab("y".to_string()),
        TabChange::ToggleZoom,
        TabChange::Arrange(LayoutNode::new_stack(1)),
        TabChange::Show(LayoutNode::new_stack(2), Some(2)),
    ];
    let mut t = tab(&[1, 2, 3]);
    for c in changes {
        t.apply(c);
        assert!(t.is_sound());
    }
    assert_eq!(t.name, "y");
}

#[test]
fn the_popup_takes_the_input_and_no_place() {
    let mut s = session(vec![tab(&[1, 2])]);
    assert_eq!(s.input_target(), Some(s.tabs[0].focused_pane));
    assert!(s.toggle_popup(9), "the first time a terminal is wanted");
    assert_eq!(s.input_target(), Some(9));
    assert_eq!(s.focused(), Some(s.tabs[0].focused_pane));
    assert_eq!(s.all_panes(), vec![1, 2]);
    assert_eq!(s.every_pane(), vec![1, 2, 9]);
}

#[test]
fn toggling_the_popup_twice_changes_nothing() {
    let mut s = session(vec![tab(&[1])]);
    s.toggle_popup(9);
    s.toggle_popup(10);
    assert_eq!((s.popup_pane, s.popup_visible), (Some(9), false));
    assert!(!s.toggle_popup(11), "it comes back with its terminal");
    assert_eq!((s.popup_pane, s.popup_visible), (Some(9), true));
}

#[test]
fn closing_works_from_pane_to_session() {
    let mut s = session(vec![tab(&[1, 2]), tab(&[3])]);
    s.toggle_popup(9);
    assert_eq!(s.close_pane(9).0, CloseAction::Broadcast);
    assert_eq!(s.popup_pane, None);
    s.goto_tab(0);
    assert_eq!(s.close_pane(3).0, CloseAction::NoBroadcast, "it is in another tab");
    assert_eq!(s.close_pane(1).0, CloseAction::Broadcast);
    assert_eq!(s.close_pane(2).0, CloseAction::Broadcast);
    assert_eq!((s.tabs.len(), s.active_tab), (1, 0));
    assert_eq!(s.close_pane(3).0, CloseAction::SessionRemoved);
}

#[test]
fn a_pane_in_the_background_can_be_closed() {
    let mut s = session(vec![tab(&[1, 2]), tab(&[3])]);
    s.goto_tab(1);
    assert!(s.close_background_pane(1));
    assert_eq!(s.tabs[0].pane_order, vec![2]);
    assert_eq!(s.active_tab, 1);
    assert!(s.is_sound());
    assert!(!s.close_background_pane(77));
}

#[test]
fn tabs_come_and_go() {
    let mut s = session(vec![tab(&[1]), tab(&[2]), tab(&[3])]);
    assert!(s.goto_tab(2));
    assert!(!s.goto_tab(3));
    assert_eq!((s.next_index(), s.prev_index()), (0, 1));
    assert_eq!(s.remove_tab(2), vec![3]);
    assert_eq!(s.active_tab, 1);
    assert!(s.is_sound());
}

#[test]
fn the_next_tab_and_the_one_before_are_opposite() {
    let mut s = session(vec![tab(&[1]), tab(&[2]), tab(&[3])]);
    for i in 0..3 {
        s.goto_tab(i);
        let next = s.next_index();
        s.goto_tab(next);
        assert_eq!(s.prev_index(), i);
    }
}

#[test]
fn shifting_keeps_the_shown_tab() {
    for (i, delta) in [(0, 1), (0, 9), (2, -1), (1, -9), (1, 0)] {
        let mut s = session(vec![tab(&[1]), tab(&[2]), tab(&[3])]);
        s.goto_tab(1);
        s.shift_tab(i, delta);
        assert_eq!(s.tabs[s.active_tab].pane_order, vec![2]);
        assert_eq!(s.tabs.len(), 3);
    }
}

#[test]
fn moving_puts_the_shown_tab_in_its_place() {
    let mut s = session(vec![tab(&[1]), tab(&[2]), tab(&[3])]);
    s.goto_tab(0);
    s.move_tab(3);
    let order: Vec<PaneId> = s.tabs.iter().map(|t| t.focused_pane).collect();
    assert_eq!(order, vec![2, 3, 1]);
    assert_eq!(s.active_tab, 2);
}

#[test]
fn a_click_changes_the_session() {
    let mut s = session(vec![tab(&[1, 2]), tab(&[3])]);
    s.goto_tab(0);
    assert!(s.apply_click(ClickEffect::Focus(1)));
    assert_eq!(s.focused(), Some(1));
    assert!(s.apply_click(ClickEffect::GotoTab(1)));
    assert_eq!(s.active_tab, 1);
    assert!(!s.apply_click(ClickEffect::Nothing));
}

#[test]
fn a_copy_is_the_same() {
    let mut s = session(vec![tab(&[1, 2]), tab(&[3])]);
    s.rename_state = Some((1, "na".to_string()));
    s.toggle_style();
    let c = s.duplicate();
    assert_eq!(format!("{s:?}"), format!("{c:?}"));
}

#[test]
fn tabs_are_numbered() {
    assert_eq!(next_tab_name(0), "Tab 1");
    assert_eq!(next_tab_name(11), "Tab 12");
}

#[test]
fn what_is_broken_is_not_sound() {
    let mut s = session(vec![tab(&[1])]);
    s.active_tab = 1;
    assert!(!s.is_sound());
    let mut t = tab(&[1]);
    t.layout = LayoutNode::Stack {
        panes: Vec::new(),
        names: Vec::new(),
        custom_names: Vec::new(),
        active: 0,
    };
    assert!(!t.is_sound());
    let mut t = tab(&[1]);
    t.layout = LayoutNode::Stack {
        panes: vec![1],
        names: vec![String::new(), String::new()],
        custom_names: Vec::new(),
        active: 0,
    };
    assert!(!t.is_sound());
    assert!(LayoutMode::Monocle(MonocleLayout).is_valid());
    assert!(LayoutMode::Custom(CustomLayout).is_valid());
    let mut m = MasterLayout::default();
    m.master_ratio.units = u64::MAX;
    assert!(!LayoutMode::Master(m).is_valid());
}
