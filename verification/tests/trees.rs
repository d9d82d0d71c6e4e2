//! Laws of layout trees, on concrete trees.

use remux::geometry::{compute_layout, compute_split_size, find_neighbor, split_rect};
use remux::layout::{
    activate_pane_in_stack, active_pane_ids, all_pane_ids, contains_pane, find_pane_name, get_pane_custom_name,
    get_pane_name, set_pane_custom_name, set_pane_name, Direction, FocusDirection, LayoutNode,
    PaneId, Rect,
};
use remux::layout_modes::{
    next_layout_mode, BspLayout, CustomLayout, GridLayout, LayoutMode, MasterLayout, MonocleLayout,
};
use remux::ratio::{
    percent_delta, round24, Ratio, HALF_UNITS, MASTER_RATIO_UNITS, MAX_RATIO_UNITS,
    MIN_RATIO_UNITS, ONE,
};
use remux::text::decimal_string;

const AREA: Rect = Rect { x: 3, y: 2, width: 81, height: 24 };

/// Panes 1 and 2 side by side, 3 below 2, and 4 stacked on 1.
fn sample() -> LayoutNode {
    let mut t = LayoutNode::new_stack(1);
    t.split_vertical(1, 2);
    t.split_horizontal(2, 3);
    t.add_to_stack(1, 4);
    t
}

fn sorted(mut v: Vec<PaneId>) -> Vec<PaneId> {
    v.sort();
    v
}

fn modes() -> Vec<LayoutMode> {
    vec![
        LayoutMode::Bsp(BspLayout),
        LayoutMode::Master(MasterLayout::default()),
        LayoutMode::Monocle(MonocleLayout),
        LayoutMode::Grid(GridLayout),
        LayoutMode::Custom(CustomLayout),
    ]
}

#[test]
fn a_split_adds_one_pane() {
    for direction in [Direction::Vertical, Direction::Horizontal] {
        let mut t = sample();
        assert!(t.split_at(3, 9, direction));
        assert_eq!(sorted(all_pane_ids(&t)), vec![1, 2, 3, 4, 9]);
        assert!(!t.split_at(77, 10, direction));
        assert_eq!(all_pane_ids(&t).len(), 5);
    }
}

#[test]
fn stacking_adds_one_pane_and_shows_it() {
    let mut t = sample();
    assert!(t.add_to_stack(2, 9));
    assert_eq!(sorted(all_pane_ids(&t)), vec![1, 2, 3, 4, 9]);
    assert!(active_pane_ids(&t).contains(&9));
    assert!(!active_pane_ids(&t).contains(&2));
    assert!(!t.add_to_stack(77, 10));
}

#[test]
fn closing_removes_one_pane() {
    for id in [1, 2, 3, 4] {
        let mut t = sample();
        let focus = t.close_pane(id);
        let left: Vec<PaneId> = [1, 2, 3, 4].into_iter().filter(|p| *p != id).collect();
        assert_eq!(sorted(all_pane_ids(&t)), left);
        assert!(left.contains(&focus.unwrap()));
        assert!(!contains_pane(&t, id));
        assert!(t.is_sound());
    }
}

#[test]
fn a_pane_that_is_listed_belongs() {
    let t = sample();
    for id in 0..6 {
        assert_eq!(contains_pane(&t, id), all_pane_ids(&t).contains(&id));
    }
}

#[test]
fn an_activated_pane_is_visible() {
    let mut t = sample();
    assert!(!active_pane_ids(&t).contains(&1));
    activate_pane_in_stack(&mut t, 1);
    assert!(active_pane_ids(&t).contains(&1));
    assert_eq!(all_pane_ids(&t).len(), 4);
}

#[test]
fn turning_back_undoes_turning() {
    let mut t = sample();
    t.add_to_stack(1, 5);
    let shown = active_pane_ids(&t);
    let next = t.stack_next(5).unwrap();
    assert_ne!(active_pane_ids(&t), shown);
    assert_eq!(t.stack_prev(next), Some(5));
    assert_eq!(active_pane_ids(&t), shown);
    assert_eq!(t.stack_next(77), None);
}

#[test]
fn names_are_read_back() {
    let mut t = sample();
    assert_eq!(get_pane_name(&t, 4), Some(String::new()));
    assert!(set_pane_name(&mut t, 4, "vim"));
    assert!(set_pane_custom_name(&mut t, 1, "mine"));
    assert_eq!(get_pane_name(&t, 4), Some("vim".to_string()));
    assert_eq!(get_pane_name(&t, 1), Some(String::new()));
    assert_eq!(get_pane_custom_name(&t, 1), Some(Some("mine".to_string())));
    assert_eq!(get_pane_custom_name(&t, 4), Some(None));
    assert_eq!(get_pane_custom_name(&t, 77), None);
    assert_eq!(find_pane_name(&t, 4), Some("vim".to_string()));
    assert_eq!(find_pane_name(&t, 77), None);
    assert!(!set_pane_name(&mut t, 77, "x"));
}

#[test]
fn resizing_moves_no_pane() {
    let mut t = sample();
    let before = all_pane_ids(&t);
    assert!(t.resize(1, Direction::Vertical, percent_delta(10, false)));
    assert_eq!(all_pane_ids(&t), before);
    let wide = compute_layout(&t, AREA, 0);
    let even = compute_layout(&sample(), AREA, 0);
    assert!(wide[0].1.width > even[0].1.width);
}

#[test]
fn a_positive_delta_makes_the_first_part_larger() {
    for pane in [1, 2] {
        let mut t = LayoutNode::new_stack(1);
        t.split_vertical(1, 2);
        assert!(t.resize(pane, Direction::Vertical, percent_delta(10, false)));
        match t {
            LayoutNode::Split { ratio, .. } => assert_eq!(ratio.units, units(0.6), "pane {pane}"),
            other => panic!("{other:?}"),
        }
    }
    let mut t = LayoutNode::new_stack(1);
    t.split_vertical(1, 2);
    assert!(t.resize(2, Direction::Vertical, percent_delta(10, true)));
    match t {
        LayoutNode::Split { ratio, .. } => assert_eq!(ratio.units, units(0.4)),
        other => panic!("{other:?}"),
    }
}

#[test]
fn closing_keeps_the_order() {
    let mut t = sample();
    assert_eq!(all_pane_ids(&t), vec![1, 4, 2, 3]);
    let focus = t.close_pane(4).unwrap();
    assert_eq!(all_pane_ids(&t), vec![1, 2, 3]);
    assert!(active_pane_ids(&t).contains(&focus));
    let focus = t.close_pane(2).unwrap();
    assert_eq!((all_pane_ids(&t), focus), (vec![1, 3], 3));
}

#[test]
fn closing_undoes_a_split() {
    for direction in [Direction::Vertical, Direction::Horizontal] {
        for target in [1, 2, 3, 4] {
            let mut t = sample();
            let before = format!("{t:?}");
            assert!(t.split_at(target, 9, direction));
            let focus = t.close_pane(9).unwrap();
            assert_eq!(format!("{t:?}"), before);
            assert!(active_pane_ids(&t).contains(&focus));
        }
    }
}

#[test]
fn a_ratio_stays_in_range() {
    let half = Ratio::half();
    assert_eq!(half.units, HALF_UNITS);
    assert_eq!(half.nudge(percent_delta(99, false)).units, MAX_RATIO_UNITS);
    assert_eq!(half.nudge(percent_delta(99, true)).units, MIN_RATIO_UNITS);
    assert_eq!(half.nudge(percent_delta(0, false)).units, HALF_UNITS);
}

/// What a single-precision number is worth in units.
fn units(x: f32) -> u64 {
    (x as f64 * ONE as f64) as u64
}

#[test]
fn shares_are_those_of_single_precision() {
    assert_eq!(units(0.1), MIN_RATIO_UNITS);
    assert_eq!(units(0.9), MAX_RATIO_UNITS);
    assert_eq!(units(0.6), MASTER_RATIO_UNITS);
    for percent in 1..=99u16 {
        let r = 0.5f32 + percent as f32 / 100.0;
        let by = percent_delta(percent, false);
        assert_eq!(Ratio::half().nudge(by).units, units(r.clamp(0.1, 0.9)), "{percent}");
        let r = 0.5f32 - percent as f32 / 100.0;
        assert_eq!(Ratio::half().nudge(-by).units, units(r.clamp(0.1, 0.9)), "{percent}");
    }
    for n in 1..40usize {
        assert_eq!(Ratio::equal(n).units, units(1.0 / n as f32), "{n}");
    }
    for total in 0..600u16 {
        for ratio in [0.1f32, 0.3, 0.5, 0.6, 0.9] {
            let got = Ratio { units: units(ratio) }.share(total);
            assert_eq!(got, (total as f32 * ratio).round() as u16, "{total} {ratio}");
        }
    }
}

#[test]
fn rounding_keeps_twenty_four_digits() {
    assert_eq!(round24(16777217, 1), 16777216);
    assert_eq!(round24(16777219, 1), 16777220);
    assert_eq!(round24(5, 2), 2);
    assert_eq!(round24(7, 2), 4);
    assert_eq!(round24(1000, 1), 1000);
}

#[test]
fn cuts_keep_the_minimum_size() {
    for total in 4..60 {
        for ratio in [MIN_RATIO_UNITS, HALF_UNITS, MAX_RATIO_UNITS] {
            let first = compute_split_size(total, Ratio { units: ratio });
            assert!(first >= 2 && total - first >= 2, "{total}");
        }
    }
    assert_eq!(compute_split_size(3, Ratio::half()), 3);
}

#[test]
fn a_cut_fills_its_area() {
    let (a, b) = split_rect(AREA, Direction::Vertical, Ratio::half(), 1);
    assert_eq!((a.x, a.width, b.x, b.width), (3, 40, 44, 40));
    assert_eq!((a.y, a.height, b.y, b.height), (2, 24, 2, 24));
}

fn cells(r: Rect) -> Vec<(u16, u16)> {
    let mut v = Vec::new();
    for y in r.y..r.y + r.height {
        for x in r.x..r.x + r.width {
            v.push((x, y));
        }
    }
    v
}

#[test]
fn rects_fill_the_area_without_overlap() {
    let t = sample();
    let rects = compute_layout(&t, AREA, 0);
    let ids: Vec<PaneId> = rects.iter().map(|(id, _)| *id).collect();
    assert_eq!(ids, active_pane_ids(&t));
    let mut all: Vec<(u16, u16)> = rects.iter().flat_map(|(_, r)| cells(*r)).collect();
    let n = all.len();
    all.sort();
    all.dedup();
    assert_eq!(all.len(), n, "no cell belongs to two panes");
    let mut wanted = cells(AREA);
    wanted.sort();
    assert_eq!(all, wanted);
}

#[test]
fn directions_are_opposite() {
    let mut t = LayoutNode::new_stack(1);
    t.split_vertical(1, 2);
    t.split_horizontal(1, 3);
    let pairs = [
        (FocusDirection::Left, FocusDirection::Right),
        (FocusDirection::Up, FocusDirection::Down),
    ];
    assert_eq!(find_neighbor(&t, AREA, 1, FocusDirection::Right, 0), Some(2));
    assert_eq!(find_neighbor(&t, AREA, 1, FocusDirection::Down, 0), Some(3));
    assert_eq!(find_neighbor(&t, AREA, 3, FocusDirection::Up, 0), Some(1));
    assert_eq!(find_neighbor(&t, AREA, 1, FocusDirection::Left, 0), None);
    for (there, back) in pairs {
        for id in [1, 2, 3] {
            if let Some(other) = find_neighbor(&t, AREA, id, there, 0) {
                assert!(find_neighbor(&t, AREA, other, back, 0).is_some());
            }
        }
    }
}

#[test]
fn a_built_tree_holds_exactly_its_panes_in_order() {
    for mode in modes() {
        for n in 1..12u64 {
            let panes: Vec<PaneId> = (1..=n).collect();
            let t = mode.build_tree(&panes, 1);
            assert_eq!(sorted(all_pane_ids(&t)), panes, "{}", mode.name());
            assert!(t.is_sound());
            if !matches!(mode, LayoutMode::Master(_)) {
                assert_eq!(all_pane_ids(&t), panes, "{}", mode.name());
            }
        }
    }
}

#[test]
fn stepping_comes_round() {
    for saved in [false, true] {
        let mut mode = LayoutMode::Bsp(BspLayout);
        let mut seen = Vec::new();
        for _ in 0..(if saved { 5 } else { 4 }) {
            seen.push(mode.name().to_string());
            mode = next_layout_mode(&mode, saved);
        }
        assert_eq!(mode.name(), "bsp");
        seen.sort();
        seen.dedup();
        assert_eq!(seen.len(), if saved { 5 } else { 4 });
    }
}

#[test]
fn decimals_tell_numbers_apart() {
    assert_eq!(decimal_string(0), "0");
    assert_eq!(decimal_string(1090), "1090");
    assert_eq!(decimal_string(u128::MAX), u128::MAX.to_string());
}
