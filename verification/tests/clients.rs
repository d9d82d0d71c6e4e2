//! Clients: their sizes, their place in the history, and what they select.

use remux::client::{ClientState, Drag, PaneOutcome};
use remux::clients::{Clients, EXIT_CODE_UNKNOWN};
use remux::config::BorderStyle;
use remux::hit::{normalize_selection, HitRegions, TabRegion};
use remux::layout::{PaneId, Rect};
use remux::mouse::{mouse_route, report_coords, MouseGesture, MouseRoute, WheelAction};
use remux::pointer::{
    handle_mouse_click, handle_mouse_drag, handle_mouse_scroll, ClickEffect, DragOutcome, Surface,
};
use remux::screen::{Cell, Row, Screen};
use remux::selection::{extract_selection_text, step_drag};

/// A screen of ten columns and four rows whose lines are `l0`, `l1`, and so on, oldest
/// first; the last four are live.
fn lines(n: usize) -> Screen {
    let mut s = Screen::new(10, 4, 1000);
    let row = |i: usize| {
        let mut cells: Vec<Cell> = (0..10).map(|_| Cell::empty()).collect();
        for (k, c) in format!("l{i}").chars().enumerate() {
            cells[k].c = c;
        }
        Row { cells, wrapped: false }
    };
    s.scrollback = (0..n - 4).map(row).collect();
    s.grid = (n - 4..n).map(row).collect();
    s
}

fn surface(pane: PaneId, screen: &Screen) -> Surface<'_> {
    Surface {
        regions: HitRegions::default(),
        pane_rects: vec![(pane, Rect { x: 0, y: 0, width: 10, height: 4 })],
        popup: None,
        style: BorderStyle::TmuxStyle,
        screens: [(pane, screen)].into_iter().collect(),
    }
}

fn drag(start: (u16, u16), end: (u16, u16), is_final: bool) -> Drag {
    Drag { start_x: start.0, start_y: start.1, end_x: end.0, end_y: end.1, is_final }
}

fn attached() -> ClientState {
    let mut c = ClientState::new();
    c.attach("s");
    c
}

fn connected(sizes: &[(u16, u16)], session: &str) -> Clients {
    let mut c = Clients::new();
    for (i, (cols, rows)) in sizes.iter().enumerate() {
        c.connect(i as u64);
        c.entries[i].1.attach(session);
        c.entries[i].1.resize(*cols, *rows);
    }
    c
}

#[test]
fn a_session_fits_every_client() {
    let c = connected(&[(100, 30), (80, 50), (120, 40)], "s");
    assert_eq!(c.session_render_size("s"), (80, 30));
    assert_eq!(c.session_render_size("t"), (80, 24));
    let c = connected(&[(33, 7)], "s");
    assert_eq!(c.session_render_size("s"), (33, 7));
    let area = c.view_reference_area();
    assert_eq!((area.width, area.height), (33, 6));
}

#[test]
fn a_demand_fits_every_viewer() {
    let mut c = connected(&[(9, 9), (9, 9), (9, 9)], "s");
    assert_eq!(c.subscriber_min_demand(5), None);
    c.entries[0].1.subscribe_pane(5, Some((40, 20)));
    c.entries[1].1.subscribe_pane(5, Some((50, 10)));
    c.entries[2].1.subscribe_pane(5, None);
    assert_eq!(c.subscriber_min_demand(5), Some((40, 10)));
}

#[test]
fn every_watcher_of_a_gone_pane_is_told() {
    let mut c = connected(&[(9, 9), (9, 9)], "s");
    c.entries[0].1.subscribe_pane(5, None);
    c.entries[0].1.pane_scroll.insert(5, 3);
    let told = c.panes_exited(&vec![(5, 0), (6, 1), (5, EXIT_CODE_UNKNOWN)]);
    assert_eq!(told, vec![(0, (5, 0))]);
    assert!(c.entries[0].1.subscribed_panes.is_empty() && c.entries[0].1.pane_scroll.is_empty());
}

#[test]
fn a_session_that_is_gone_has_no_clients() {
    let mut c = connected(&[(9, 9), (9, 9)], "s");
    c.entries[1].1.attach("t");
    assert_eq!(c.retarget("s", None), vec![0]);
    assert!(!c.has_client("s") && c.has_client("t"));
}

#[test]
fn watching_again_keeps_the_place() {
    let mut c = ClientState::new();
    c.subscribe_pane(5, Some((9, 9)));
    c.pane_scroll.insert(5, 3);
    c.subscribe_pane(5, Some((8, 8)));
    assert_eq!(c.pane_scroll.get(&5), Some(&3));
    assert!(c.unsubscribe_pane(5));
    assert!(c.pane_scroll.is_empty() && !c.unsubscribe_pane(5));
}

#[test]
fn a_scroll_stays_in_range() {
    let screen = lines(10);
    let mut c = ClientState::new();
    c.handle_scroll_delta(4, Some((1, &screen)));
    assert_eq!(c.scroll_offset, 4);
    c.handle_scroll_delta(99, Some((1, &screen)));
    assert_eq!(c.scroll_offset, 6);
    c.handle_scroll_delta(-99, Some((1, &screen)));
    assert_eq!(c.scroll_offset, 0);
}

#[test]
fn a_watched_pane_scrolls_for_its_watcher() {
    let screen = lines(10);
    let mut c = ClientState::new();
    assert!(matches!(c.scroll_pane(5, Some(&screen), true, 3, 0, 0), PaneOutcome::Ignored));
    c.subscribe_pane(5, None);
    assert!(matches!(c.scroll_pane(5, Some(&screen), true, 3, 0, 0), PaneOutcome::Repaint(_)));
    assert_eq!(c.pane_scroll.get(&5), Some(&3));
    c.scroll_pane(5, Some(&screen), true, 30, 0, 0);
    assert_eq!(c.pane_scroll.get(&5), Some(&6));
    c.scroll_pane(5, Some(&screen), false, 30, 0, 0);
    assert_eq!(c.pane_scroll.get(&5), None);
}

#[test]
fn search_info_ends_with_the_mode() {
    let mut c = ClientState::new();
    c.handle_search_info(1, 3);
    assert_eq!(c.search_info, Some((1, 3)));
    c.handle_mode_changed("SEARCH");
    assert_eq!(c.search_info, Some((1, 3)));
    c.handle_search_info(0, 0);
    assert_eq!(c.search_info, None);
    c.handle_search_info(1, 3);
    c.handle_mode_changed("VISUAL");
    assert!(c.in_copy_mode() && c.search_info.is_none());
}

// -- lines ---------------------------------------------------------------------

#[test]
fn a_line_number_leads_back_to_its_row() {
    let s = lines(10);
    for offset in 0..=6 {
        for row in 0..4 {
            assert_eq!(s.row_of_abs(offset, s.abs_of_row(offset, row), 4), row);
        }
    }
}

#[test]
fn line_numbers_survive_eviction() {
    let mut s = lines(10);
    let abs = s.abs_of_row(0, 1);
    s.scrollback.remove(0);
    s.lines_evicted += 1;
    assert_eq!(s.abs_of_row(0, 1), abs);
    assert_eq!(s.line_of_abs(abs).unwrap().cells[1].c, '7');
    assert!(s.line_of_abs(0).is_none());
}

#[test]
fn the_text_has_no_direction() {
    let s = lines(10);
    let a = extract_selection_text(&s, 1, 2, 0, 4);
    assert_eq!(a, "2\nl3\nl");
    assert_eq!(extract_selection_text(&s, 0, 4, 1, 2), a);
    assert_eq!(normalize_selection((3, 2), (1, 1)), ((1, 1), (3, 2)));
}

#[test]
fn a_selected_line_ends_in_text() {
    let s = lines(6);
    assert_eq!(extract_selection_text(&s, 0, 0, 9, 0), "l0");
}

// -- drags ---------------------------------------------------------------------

#[test]
fn a_release_scrolls_nothing() {
    let s = lines(10);
    assert_eq!(step_drag(&s, 4, None, (0, 2), (0, 0), 2, false).offset, 2);
    let step = step_drag(&s, 4, None, (0, 2), (0, 0), 2, true);
    assert_eq!((step.offset, step.repeat), (3, true));
}

#[test]
fn the_anchor_stays_pinned() {
    let s = lines(10);
    let first = step_drag(&s, 4, None, (1, 2), (3, 0), 0, true);
    let second = step_drag(
        &s,
        4,
        Some((first.anchor_col, first.anchor_abs)),
        (1, 2),
        (3, 0),
        first.offset,
        true,
    );
    assert_eq!(second.anchor_abs, first.anchor_abs);
    assert_eq!(second.anchor_row, 3, "it is off the screen, below");
    assert_eq!(second.offset, 2);
}

#[test]
fn edge_scrolling_stops() {
    let s = lines(6);
    let mut offset = 0;
    for _ in 0..5 {
        let step = step_drag(&s, 4, None, (0, 3), (0, 0), offset, true);
        offset = step.offset;
        assert_eq!(step.repeat, offset < 2);
    }
    assert_eq!(offset, 2);
}

#[test]
fn a_single_row_is_both_edges() {
    let s = lines(6);
    let below = step_drag(&s, 1, None, (0, 0), (0, 0), 0, true);
    assert_eq!((below.offset, below.repeat), (1, true));
    let last = step_drag(&s, 1, None, (0, 0), (0, 0), 1, true);
    assert_eq!((last.offset, last.repeat), (2, true), "there is more below");
    let blank = step_drag(&lines(4), 1, None, (0, 0), (0, 0), 0, true);
    assert_eq!((blank.offset, blank.repeat), (0, false), "there is no history");
}

#[test]
fn a_drag_selects_and_copies() {
    let s = lines(10);
    let surf = surface(1, &s);
    let mut c = attached();
    handle_mouse_drag(&mut c, &surf, Some(1), true, drag((0, 1), (1, 2), false));
    assert_eq!(c.mouse_selection.map(|m| m.pane_id), Some(1));
    match handle_mouse_drag(&mut c, &surf, Some(1), true, drag((0, 1), (1, 2), true)) {
        DragOutcome::Select(text) => assert_eq!(text.as_deref(), Some("l7\nl8")),
        other => panic!("{other:?}"),
    }
}

#[test]
fn a_drag_past_the_edge_repeats() {
    let s = lines(10);
    let surf = surface(1, &s);
    let mut c = attached();
    handle_mouse_drag(&mut c, &surf, Some(1), true, drag((0, 2), (0, 0), false));
    assert_eq!(c.scroll_offset, 1);
    assert_eq!(c.autoscroll_repeat, Some((0, 2, 0, 0)));
    handle_mouse_drag(&mut c, &surf, Some(1), true, drag((0, 2), (0, 0), true));
    assert_eq!((c.scroll_offset, c.autoscroll_repeat), (1, None));
}

#[test]
fn an_application_keeps_its_drag() {
    let mut s = lines(10);
    s.mouse_tracking = true;
    s.mouse_sgr = true;
    s.mouse_motion = true;
    let surf = surface(1, &s);
    let mut c = attached();
    match handle_mouse_drag(&mut c, &surf, Some(1), true, drag((0, 1), (2, 2), false)) {
        DragOutcome::Forward(pane, bytes) => {
            assert_eq!(pane, 1);
            assert_eq!(bytes.unwrap(), b"\x1b[<32;3;3M".to_vec());
        }
        other => panic!("{other:?}"),
    }
    assert!(c.mouse_selection.is_none());
}

#[test]
fn the_alternate_screen_is_not_scrolled() {
    let mut s = lines(10);
    s.alt_screen_active = true;
    let surf = surface(1, &s);
    let mut c = attached();
    handle_mouse_drag(&mut c, &surf, Some(1), true, drag((0, 2), (0, 0), false));
    assert_eq!((c.scroll_offset, c.autoscroll_repeat), (0, None));
    assert!(matches!(
        mouse_route(&s, MouseGesture::Wheel, false),
        MouseRoute::AltArrows { app_cursor: false }
    ));
}

#[test]
fn copy_mode_keeps_the_mouse() {
    let mut s = lines(10);
    s.mouse_tracking = true;
    assert!(matches!(mouse_route(&s, MouseGesture::Button, true), MouseRoute::Remux { .. }));
    assert!(matches!(mouse_route(&s, MouseGesture::Button, false), MouseRoute::App { .. }));
}

#[test]
fn reports_count_from_one() {
    let rect = Rect { x: 5, y: 6, width: 10, height: 4 };
    assert_eq!(report_coords(&BorderStyle::TmuxStyle, rect, 5, 6), (1, 1));
    assert_eq!(report_coords(&BorderStyle::ZellijStyle, rect, 6, 7), (1, 1));
    assert_eq!(report_coords(&BorderStyle::TmuxStyle, rect, 7, 8), (3, 3));
}

#[test]
fn the_wheel_scrolls_three_lines() {
    let s = lines(10);
    let surf = surface(1, &s);
    let c = attached();
    match handle_mouse_scroll(&c, &surf, Some(1), 2, 2, true) {
        Some((1, WheelAction::Scroll(n))) => assert_eq!(n, 3),
        other => panic!("{other:?}"),
    }
    assert!(handle_mouse_scroll(&c, &surf, None, 50, 50, true).is_none());
}

#[test]
fn a_click_focuses_or_switches() {
    let s = lines(10);
    let mut surf = surface(1, &s);
    surf.regions.tab_regions.push(TabRegion { x_start: 0, x_end: 4, y: 9, tab_index: 2 });
    let mut c = attached();
    let r = handle_mouse_click(&mut c, &surf, 3, 3, false);
    assert_eq!(r.effect, ClickEffect::Focus(1));
    assert!(r.report.is_none());
    assert_eq!(handle_mouse_click(&mut c, &surf, 2, 9, false).effect, ClickEffect::GotoTab(2));
    assert_eq!(handle_mouse_click(&mut c, &surf, 50, 50, false).effect, ClickEffect::Nothing);
}

#[test]
fn the_popup_shields_what_is_behind_it() {
    let s = lines(10);
    let mut surf = surface(1, &s);
    surf.regions.tab_regions.push(TabRegion { x_start: 0, x_end: 4, y: 1, tab_index: 2 });
    surf.popup = Some((9, Rect { x: 0, y: 0, width: 6, height: 3 }));
    let mut c = attached();
    for (x, y) in [(1, 1), (8, 3), (50, 50)] {
        let r = handle_mouse_click(&mut c, &surf, x, y, false);
        assert_eq!(r.effect, ClickEffect::Nothing, "{x} {y}");
    }
}

#[test]
fn a_watched_pane_is_dragged_for_its_watcher() {
    let s = lines(10);
    let mut c = ClientState::new();
    c.subscribe_pane(5, None);
    c.pane_mouse_drag(5, Some(&s), drag((0, 1), (1, 1), false), true);
    assert!(c.pane_selection.contains_key(&5) && c.mouse_selection.is_none());
    match c.pane_mouse_drag(5, Some(&s), drag((0, 1), (1, 1), true), true) {
        PaneOutcome::Repaint(text) => assert_eq!(text.as_deref(), Some("l7")),
        other => panic!("{other:?}"),
    }
    assert!(c.pane_selection.is_empty(), "what was copied is no longer marked");
    c.pane_mouse_drag(5, Some(&s), drag((0, 1), (1, 1), false), true);
    let (repaint, report) = c.pane_mouse_click(5, Some(&s), false, 0, 0);
    assert!(repaint && report.is_none());
    assert!(c.pane_selection.is_empty());
}

#[test]
fn each_watcher_sees_its_own_lines() {
    let s = lines(10);
    let mut c = connected(&[(9, 9), (9, 9), (9, 9)], "s");
    c.entries[0].1.subscribe_pane(5, None);
    c.entries[2].1.subscribe_pane(5, None);
    c.entries[2].1.pane_scroll.insert(5, 99);
    let sent = c.stream_pane_content(5, &s);
    let ids: Vec<u64> = sent.iter().map(|(id, _)| *id).collect();
    assert_eq!(ids, vec![0, 2]);
    assert_eq!(sent[0].1.cells[0][1].c, '6');
    assert_eq!(sent[1].1.cells[0][1].c, '0');
    assert!(c.session_tree_subscribers().is_empty());
    c.entries[1].1.subscribe_session_tree(true);
    assert_eq!(c.session_tree_subscribers(), vec![1]);
}
