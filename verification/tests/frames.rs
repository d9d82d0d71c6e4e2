//! Frames: what is composed, how large terminals are, and what is sent.

use remux::blit::{apply_selection_highlight, render_pane_snapshot};
use remux::boxes::{draw_zellij_box, fits_zellij_border, pane_content_rect};
use remux::client::ClientState;
use remux::clients::Clients;
use remux::composed::build_composite;
use remux::config::{BorderStyle, CompositorTheme, TabActivity};
use remux::frames::{
    broadcast_full_render, invalidate_session_baselines, redraw_client, redraw_session,
};
use remux::grid::put_cell;
use remux::hit::{hit_test, hit_test_with_popup, ClickTarget, HitRegions, MouseSelection};
use remux::layout::{PaneId, Rect};
use remux::layout_modes::{BspLayout, LayoutMode};
use remux::protocol::{CellColor, PaneRect, RenderCell};
use remux::render::{
    broadcast_message, broadcast_target, compute_diff, send_full_render_to_client, viewport_top,
    FrameInfo, RenderMessage,
};
use remux::screen::{Cell, Row, Screen};
use remux::sizing::{
    active_tab_content_sizes, content_area, is_showing, pane_home_allotment, pane_session_visible,
    plan_resize, popup_terminal_size, recompute_pane_size, remeasure_pane, resize_session_panes,
    Remeasured,
};
use remux::state::ServerState;
use remux::status_bar::{draw_status_bar, StatusInfo};
use remux::tab::PanePlacement;
use remux::tab_strip::tab_strip_layout;
use std::collections::HashMap;

const MODE: LayoutMode = LayoutMode::Bsp(BspLayout);

/// One session with panes 0 and 1 side by side.
fn state(style: BorderStyle) -> ServerState {
    let mut st = ServerState::new();
    st.create_session("s", None, style, MODE, (80, 70)).unwrap();
    let id = st.next_pane_id();
    st.sessions.get_mut("s").unwrap().tabs[0].place_pane(PanePlacement::SplitVertical, id);
    st
}

fn filled(cols: u16, rows: u16, c: char) -> Screen {
    let mut s = Screen::new(cols, rows, 100);
    for row in s.grid.iter_mut() {
        for cell in row.cells.iter_mut() {
            cell.c = c;
        }
    }
    s
}

fn blank(cols: usize, rows: usize) -> Vec<Vec<RenderCell>> {
    (0..rows).map(|_| (0..cols).map(|_| RenderCell::default()).collect()).collect()
}

fn letters(rows: &[&str]) -> Vec<Vec<RenderCell>> {
    rows.iter()
        .map(|r| r.chars().map(|c| RenderCell { c, ..RenderCell::default() }).collect())
        .collect()
}

fn info() -> FrameInfo {
    FrameInfo {
        cursor_x: 1,
        cursor_y: 2,
        cursor_visible: true,
        cursor_style: 0,
        focused_pane_rect: Some(PaneRect { x: 0, y: 0, width: 2, height: 2 }),
        application_cursor_keys: false,
        viewport_top: 0,
        scroll_offset: 0,
    }
}

// -- composing -------------------------------------------------------------------

#[test]
fn a_frame_shows_every_pane_and_the_status_bar() {
    let st = state(BorderStyle::TmuxStyle);
    let (a, b) = (filled(20, 9, 'a'), filled(20, 9, 'b'));
    let screens: HashMap<PaneId, &Screen> = [(0, &a), (1, &b)].into_iter().collect();
    let theme = CompositorTheme::default();
    let none = Rect { x: 0, y: 0, width: 0, height: 0 };
    let f = build_composite("s", 41, 10, "NORMAL", &st, &screens, None, None, 0, none, &theme);
    assert_eq!((f.cells.len(), f.cells[0].len()), (10, 41));
    assert_eq!((f.cells[4][2].c, f.cells[4][38].c), ('a', 'b'));
    let bar: String = f.cells[9].iter().map(|c| c.c).collect();
    assert!(bar.contains("NORMAL") && bar.contains('s'), "{bar}");
    let ids: Vec<PaneId> = f.pane_rects.iter().map(|(id, _)| *id).collect();
    assert_eq!(ids, vec![0, 1]);
    assert!(f.cursor.visible && f.cursor.x >= 20, "the focus is on the right");
    assert_eq!(f.popup, None);
}

#[test]
fn the_popup_lies_over_the_layout() {
    let mut st = state(BorderStyle::TmuxStyle);
    st.sessions.get_mut("s").unwrap().toggle_popup(9);
    let (a, b, p) = (filled(20, 9, 'a'), filled(20, 9, 'b'), filled(8, 3, 'p'));
    let screens: HashMap<PaneId, &Screen> = [(0, &a), (1, &b), (9, &p)].into_iter().collect();
    let theme = CompositorTheme::default();
    let rect = Rect { x: 5, y: 2, width: 10, height: 5 };
    let f = build_composite("s", 41, 10, "NORMAL", &st, &screens, None, None, 0, rect, &theme);
    assert_eq!(f.cells[4][8].c, 'p');
    assert_eq!(f.cells[8][2].c, 'a');
    assert_eq!(f.popup, Some((9, rect)));
    assert_eq!((f.cursor.x, f.cursor.y), (6, 3), "the popup has the cursor");
    let hit = hit_test_with_popup(8, 4, &f.regions, &f.pane_rects, f.popup);
    assert_eq!(hit, ClickTarget::Pane(9));
}

#[test]
fn the_cursor_of_a_rename_is_behind_the_typed_name() {
    for (name, x) in [("ab", 4), ("", 2), ("日本", 8)] {
        let mut st = state(BorderStyle::ZellijStyle);
        let s = st.sessions.get_mut("s").unwrap();
        remux::layout::set_pane_name(&mut s.tabs[0].layout, 0, name);
        s.rename_state = Some((0, name.to_string()));
        let (a, b) = (filled(20, 9, 'a'), filled(20, 9, 'b'));
        let screens: HashMap<PaneId, &Screen> = [(0, &a), (1, &b)].into_iter().collect();
        let theme = CompositorTheme::default();
        let none = Rect { x: 0, y: 0, width: 0, height: 0 };
        let f = build_composite("s", 41, 10, "NORMAL", &st, &screens, None, None, 0, none, &theme);
        assert_eq!((f.cursor.x, f.cursor.y, f.cursor.visible), (x, 0, true), "{name:?}");
    }
}

#[test]
fn without_the_session_there_is_nothing_to_show() {
    let st = ServerState::new();
    let theme = CompositorTheme::default();
    let none = Rect { x: 0, y: 0, width: 0, height: 0 };
    let screens = HashMap::new();
    let f = build_composite("s", 5, 3, "NORMAL", &st, &screens, None, None, 0, none, &theme);
    assert_eq!((f.cells.len(), f.cells[0].len()), (3, 5));
    assert!(f.cells.iter().flatten().all(|c| c.c == ' '));
    assert!(f.pane_rects.is_empty());
}

#[test]
fn a_box_leaves_its_content_alone() {
    let theme = CompositorTheme::default();
    let mut g = blank(10, 6);
    let rect = Rect { x: 1, y: 1, width: 6, height: 4 };
    draw_zellij_box(&mut g, rect, &CellColor::Indexed(3), &theme);
    let inside = pane_content_rect(&BorderStyle::ZellijStyle, rect, false);
    assert_eq!(inside, Rect { x: 2, y: 2, width: 4, height: 2 });
    let drawn: Vec<(usize, usize)> = (0..6)
        .flat_map(|y| (0..10).map(move |x| (x, y)))
        .filter(|(x, y)| g[*y][*x].c != ' ')
        .collect();
    assert_eq!(drawn.len(), 16);
    let top: String = g[1].iter().map(|c| c.c).collect();
    assert_eq!(top.trim(), remux::boxes::box_top_line(4));
    assert!(fits_zellij_border(3, 3) && !fits_zellij_border(2, 9));
}

#[test]
fn highlighting_twice_undoes_it() {
    let sel = MouseSelection { pane_id: 1, start: (1, 0), end: (2, 1) };
    let rect = Rect { x: 0, y: 0, width: 5, height: 3 };
    let mut before = letters(&["abcde", "fghij", "klmno"]);
    for row in before.iter_mut() {
        for cell in row.iter_mut() {
            cell.fg = CellColor::Indexed(1);
        }
    }
    let mut once = before.clone();
    apply_selection_highlight(&mut once, &sel, &rect, &BorderStyle::TmuxStyle);
    assert!(once != before);
    assert_eq!((once[0][1].fg, once[0][1].bg), (CellColor::Default, CellColor::Indexed(1)));
    assert_eq!(once[0][1].c, 'b');
    assert_eq!(once[0][0].bg, CellColor::Default);
    assert_eq!(once[1][3].bg, CellColor::Default);
    apply_selection_highlight(&mut once, &sel, &rect, &BorderStyle::TmuxStyle);
    assert!(once == before);
}

#[test]
fn a_screen_without_cells_has_an_empty_snapshot() {
    for (cols, rows) in [(0, 0), (0, 3), (3, 0)] {
        let snap = render_pane_snapshot(&Screen::new(cols, rows, 10));
        assert!(snap.cells.is_empty());
        assert_eq!((snap.cursor_x, snap.cursor_y), (0, 0));
    }
}

#[test]
fn a_cell_outside_of_the_grid_is_not_put() {
    let mut g = blank(2, 1);
    let x = RenderCell { c: 'x', ..RenderCell::default() };
    put_cell(&mut g, 0, 1, x.clone());
    put_cell(&mut g, 0, 2, x.clone());
    put_cell(&mut g, 1, 0, x);
    let text: String = g[0].iter().map(|c| c.c).collect();
    assert_eq!((g.len(), text.as_str()), (1, " x"));
}

#[test]
fn a_selection_inverts_the_colors() {
    let mut g = letters(&["a"]);
    g[0][0].fg = CellColor::Indexed(1);
    g[0][0].bg = CellColor::Indexed(4);
    let sel = MouseSelection { pane_id: 1, start: (0, 0), end: (0, 0) };
    let rect = Rect { x: 0, y: 0, width: 1, height: 1 };
    apply_selection_highlight(&mut g, &sel, &rect, &BorderStyle::TmuxStyle);
    assert_eq!((g[0][0].fg, g[0][0].bg), (CellColor::Indexed(4), CellColor::Indexed(1)));
}

#[test]
fn a_tab_is_clicked_where_it_is_painted() {
    let names: Vec<String> = ["ab", "cde"].iter().map(|s| s.to_string()).collect();
    let strip = tab_strip_layout(&names, 20, &BorderStyle::ZellijStyle);
    assert_eq!(strip.len(), 2);
    assert!(strip[0].start < strip[0].end && strip[0].end <= strip[1].start);
    assert!(strip[1].end <= 20);
    let none = HitRegions::default();
    assert_eq!(hit_test(0, 0, &none, &[]), ClickTarget::Nothing);
}

// -- sizes -----------------------------------------------------------------------

#[test]
fn a_terminal_is_as_large_as_it_is_painted() {
    let mut st = state(BorderStyle::ZellijStyle);
    let s = st.sessions.get_mut("s").unwrap();
    assert_eq!(content_area(80, 24), Rect { x: 0, y: 0, width: 80, height: 23 });
    assert_eq!(active_tab_content_sizes(s, 80, 24), vec![(0, 38, 21), (1, 38, 21)]);
    s.toggle_style();
    let sizes = active_tab_content_sizes(s, 81, 24);
    assert_eq!((sizes[0].1, sizes[0].2), (41, 23));
    s.tabs[0].toggle_zoom();
    assert_eq!(active_tab_content_sizes(s, 80, 24), vec![(1, 80, 23)]);
    assert!(is_showing(s, 1));
    let mut clients = Clients::new();
    clients.connect(1);
    clients.entries[0].1.attach("s");
    clients.entries[0].1.resize(60, 20);
    assert_eq!(resize_session_panes(s, &clients, "s"), vec![(1, 60, 19)]);
}

#[test]
fn the_foreground_decides() {
    let st = state(BorderStyle::TmuxStyle);
    let mut clients = Clients::new();
    assert!(!pane_session_visible(&st, &clients, 0));
    clients.connect(1);
    clients.entries[0].1.attach("s");
    assert!(pane_session_visible(&st, &clients, 0));
    let home = pane_home_allotment(&st, &clients, 0);
    assert!(home.is_some());
    assert_eq!(recompute_pane_size(true, Some((40, 20)), Some((9, 9)), 80, 24), Some((40, 20)));
    assert_eq!(recompute_pane_size(false, Some((40, 20)), Some((50, 9)), 80, 24), Some((40, 9)));
    assert_eq!(recompute_pane_size(false, None, Some((50, 9)), 50, 9), None, "it has that size");
    assert_eq!(recompute_pane_size(false, None, None, 50, 9), None);
    assert_eq!(recompute_pane_size(false, None, Some((0, 0)), 50, 9), Some((1, 1)));
}

#[test]
fn a_popup_terminal_fits_inside_its_frame() {
    assert_eq!(popup_terminal_size(Rect { x: 0, y: 0, width: 40, height: 20 }), (38, 18));
    assert_eq!(popup_terminal_size(Rect { x: 0, y: 0, width: 1, height: 0 }), (1, 1));
}

// -- sending ---------------------------------------------------------------------

#[test]
fn a_diff_leads_to_the_new_frame() {
    let prev = letters(&["abc", "def"]);
    let curr = letters(&["abX", "dYf"]);
    let mut frame = prev.clone();
    let changes = compute_diff(&prev, &curr);
    assert_eq!(changes.len(), 2);
    for ch in changes {
        frame[ch.y as usize][ch.x as usize] = ch.cell;
    }
    assert!(frame == curr);
    assert!(compute_diff(&curr, &curr).is_empty());
}

#[test]
fn a_broadcast_is_a_diff_where_it_can_be() {
    let prev = letters(&["ab", "cd"]);
    let curr = letters(&["ab", "ce"]);
    match broadcast_message(Some(&prev), &curr, info(), 2, 2) {
        RenderMessage::RenderDiff { changes, .. } => assert_eq!(changes.len(), 1),
        other => panic!("{other:?}"),
    }
    assert!(matches!(
        broadcast_message(None, &curr, info(), 2, 2),
        RenderMessage::FullRender { .. }
    ));
    let small = letters(&["a"]);
    assert!(matches!(
        broadcast_message(Some(&small), &curr, info(), 2, 2),
        RenderMessage::FullRender { .. }
    ));
}

#[test]
fn a_scrolled_client_is_not_pulled_back() {
    let mut c = ClientState::new();
    assert_eq!(broadcast_target(&mut c, "s"), None);
    c.attach("s");
    assert!(broadcast_target(&mut c, "s").is_some());
    c.scroll_offset = 3;
    assert_eq!(broadcast_target(&mut c, "s"), None);
}

/// Clients 1 and 2 of `s`, 3 of `s` but scrolled, and 4 of another session.
fn audience() -> Clients {
    let mut clients = Clients::new();
    for id in 1..=4 {
        clients.connect(id);
    }
    for i in 0..3 {
        clients.entries[i].1.attach("s");
    }
    clients.entries[2].1.scroll_offset = 2;
    clients.entries[3].1.attach("t");
    clients
}

fn kinds(sent: &[(u64, RenderMessage)]) -> Vec<(u64, &'static str)> {
    sent.iter()
        .map(|(id, m)| {
            let kind = match m {
                RenderMessage::FullRender { .. } => "full",
                RenderMessage::RenderDiff { .. } => "diff",
                RenderMessage::ScrollRender { .. } => "scroll",
            };
            (*id, kind)
        })
        .collect()
}

#[test]
fn every_client_is_compared_with_its_own_frame() {
    let mut clients = audience();
    let old = letters(&["ab", "cd"]);
    let new = letters(&["ab", "ce"]);
    let mut frames = HashMap::from([
        (1, old.clone()),
        (2, letters(&["zz", "zz"])),
        (3, old.clone()),
        (4, old.clone()),
    ]);
    let sent = broadcast_full_render("s", &mut clients, &mut frames, &new, info(), 2, 2);
    assert_eq!(kinds(&sent), vec![(1, "diff"), (2, "full")]);
    assert!(frames[&1] == new && frames[&2] == new, "what is sent is what is kept");
    assert!(frames[&3] == old && frames[&4] == old);
    let sent = broadcast_full_render("s", &mut clients, &mut frames, &new, info(), 2, 2);
    match &sent[1].1 {
        RenderMessage::RenderDiff { changes, .. } => assert!(changes.is_empty()),
        other => panic!("{other:?}"),
    }
}

#[test]
fn a_full_frame_that_is_owed_is_sent_once() {
    let mut clients = audience();
    let cells = letters(&["ab", "cd"]);
    let mut frames = HashMap::from([(1, cells.clone()), (2, cells.clone())]);
    clients.entries[1].1.needs_full_render = true;
    clients.entries[2].1.needs_full_render = true;
    let sent = broadcast_full_render("s", &mut clients, &mut frames, &cells, info(), 2, 2);
    assert_eq!(kinds(&sent), vec![(1, "diff"), (2, "full")]);
    assert!(!clients.entries[1].1.needs_full_render);
    assert!(clients.entries[2].1.needs_full_render, "a scrolled client still owes it");
    let sent = broadcast_full_render("s", &mut clients, &mut frames, &cells, info(), 2, 2);
    assert_eq!(kinds(&sent), vec![(1, "diff"), (2, "diff")]);
}

#[test]
fn a_session_forgets_the_frames_of_its_clients() {
    let clients = audience();
    let cells = letters(&["ab"]);
    let mut frames: HashMap<u64, Vec<Vec<RenderCell>>> =
        (1..=5).map(|id| (id, cells.clone())).collect();
    invalidate_session_baselines("s", &clients, &mut frames);
    let mut left: Vec<u64> = frames.keys().copied().collect();
    left.sort();
    assert_eq!(left, vec![4, 5]);
}

#[test]
fn a_session_is_drawn_for_all_its_clients() {
    let st = state(BorderStyle::TmuxStyle);
    let (a, b) = (filled(20, 9, 'a'), filled(20, 9, 'b'));
    let screens: HashMap<PaneId, &Screen> = [(0, &a), (1, &b)].into_iter().collect();
    let theme = CompositorTheme::default();
    let none = Rect { x: 0, y: 0, width: 0, height: 0 };
    let mut clients = audience();
    clients.entries[0].1.resize(41, 30);
    clients.entries[1].1.resize(60, 10);
    clients.entries[0].1.handle_mode_changed("VISUAL");
    let mut frames = HashMap::new();
    let sent = redraw_session("s", &st, &mut clients, &mut frames, &screens, none, &theme);
    assert_eq!(kinds(&sent), vec![(1, "full"), (2, "full")]);
    let frame = &frames[&2];
    assert_eq!((frame.len(), frame[0].len()), (10, 41), "what fits all");
    let bar: String = frame[9].iter().map(|c| c.c).collect();
    assert!(bar.contains("VISUAL"), "the first client's mode: {bar}");
    let sent = redraw_session("s", &st, &mut clients, &mut frames, &screens, none, &theme);
    assert_eq!(kinds(&sent), vec![(1, "diff"), (2, "diff")]);
    let nobody = redraw_session("x", &st, &mut clients, &mut frames, &screens, none, &theme);
    assert!(nobody.is_empty());
}

#[test]
fn a_scrolled_frame_is_not_kept() {
    let st = state(BorderStyle::TmuxStyle);
    let (a, mut b) = (filled(20, 9, 'a'), filled(20, 9, 'b'));
    for _ in 0..9 {
        let cells = (0..20).map(|_| Cell::empty()).collect();
        b.scrollback.push(Row { cells, wrapped: false });
    }
    let screens: HashMap<PaneId, &Screen> = [(0, &a), (1, &b)].into_iter().collect();
    let theme = CompositorTheme::default();
    let none = Rect { x: 0, y: 0, width: 0, height: 0 };
    let mut clients = audience();
    let mut frames = HashMap::new();
    let m = redraw_client(1, &st, &mut clients, &mut frames, &screens, none, &theme).unwrap();
    assert!(matches!(m, RenderMessage::FullRender { info, .. } if info.cursor_visible));
    let live = frames[&1].clone();
    clients.entries[0].1.scroll_offset = 3;
    let m = redraw_client(1, &st, &mut clients, &mut frames, &screens, none, &theme).unwrap();
    match m {
        RenderMessage::FullRender { cells, info } => {
            assert!(cells != live);
            assert_eq!((info.scroll_offset, info.cursor_visible), (3, false));
        }
        other => panic!("{other:?}"),
    }
    assert!(frames[&1] == live, "the frame of the live view stays");
    assert_eq!(clients.entries[0].1.prev_scroll_offset, 3);
    assert!(redraw_client(9, &st, &mut clients, &mut frames, &screens, none, &theme).is_none());
}

#[test]
fn a_pane_that_comes_into_view_is_sent_again() {
    let st = state(BorderStyle::TmuxStyle);
    let mut clients = Clients::new();
    clients.connect(1);
    let r = remeasure_pane(&st, &clients, 0, 40, 23, false);
    assert_eq!(r, Remeasured { size: None, visible: false, stream: false });
    clients.entries[0].1.attach("s");
    let r = remeasure_pane(&st, &clients, 0, 40, 23, false);
    assert_eq!(r, Remeasured { size: None, visible: true, stream: true });
    let r = remeasure_pane(&st, &clients, 0, 40, 23, true);
    assert!(!r.stream, "nothing changed");
    let r = remeasure_pane(&st, &clients, 0, 9, 9, true);
    assert_eq!(r, Remeasured { size: Some((40, 23)), visible: true, stream: true });
}

#[test]
fn a_session_without_panes_is_not_resized() {
    let mut st = state(BorderStyle::TmuxStyle);
    let clients = Clients::new();
    let plan = plan_resize(&st, &clients, "s").unwrap();
    assert_eq!((plan.panes, plan.popup), (vec![(0, 40, 23), (1, 40, 23)], None));
    assert!(plan_resize(&st, &clients, "x").is_none());
    st.sessions.get_mut("s").unwrap().toggle_popup(9);
    assert_eq!(plan_resize(&st, &clients, "s").unwrap().popup, Some(9));
    st.sessions.get_mut("s").unwrap().tabs.clear();
    assert!(plan_resize(&st, &clients, "s").is_none(), "not even the popup");
}

#[test]
fn scrolling_sends_only_the_new_rows() {
    let mut screen = filled(2, 2, 'x');
    for _ in 0..6 {
        let cells = (0..2).map(|_| Cell::empty()).collect();
        screen.scrollback.push(Row { cells, wrapped: false });
    }
    let mut c = ClientState::new();
    c.scroll_offset = 3;
    c.prev_scroll_offset = 2;
    let cells = letters(&["ab", "cd", "ef"]);
    let (m, baseline) = send_full_render_to_client(&mut c, cells, info(), Some(&screen), 3);
    match m {
        RenderMessage::ScrollRender { delta, new_rows, info, .. } => {
            assert_eq!((delta, new_rows.len()), (1, 1));
            assert_eq!(new_rows[0][0].c, 'a');
            assert_eq!((info.scroll_offset, info.viewport_top), (3, 3));
        }
        other => panic!("{other:?}"),
    }
    assert!(baseline.is_none());
    assert_eq!(c.prev_scroll_offset, 3);
    c.scroll_offset = 0;
    let (m, baseline) =
        send_full_render_to_client(&mut c, letters(&["ab"]), info(), Some(&screen), 3);
    assert!(matches!(m, RenderMessage::FullRender { .. }) && baseline.is_some());
    assert_eq!(viewport_top(Some(&screen), 0, None, 3), 6);
    assert_eq!(viewport_top(None, 5, None, 3), 0);
}

#[test]
fn the_bar_stays_on_its_row() {
    let theme = CompositorTheme::default();
    let mut g = letters(&["abcdefghij", "klmnopqrst", "uvwxyzabcd"]);
    let above = g[..2].to_vec();
    let info = StatusInfo {
        mode: "NORMAL".to_string(),
        session_name: "s".to_string(),
        tabs: vec![("one".to_string(), true, TabActivity::Quiet)],
        layout_mode: "bsp".to_string(),
        search_info: None,
    };
    let mut regions = HitRegions::default();
    draw_status_bar(&mut g, 10, 3, &info, &mut regions, &theme);
    assert!(g[..2] == above[..]);
    assert_eq!(g[2].len(), 10);
    assert_ne!(g[2][0].c, 'u');
}

#[test]
fn no_label_shines_through_the_popup() {
    let mut st = state(BorderStyle::ZellijStyle);
    st.sessions.get_mut("s").unwrap().tabs[0].place_pane(PanePlacement::Stack, 7);
    st.sessions.get_mut("s").unwrap().toggle_popup(9);
    let blank = filled(40, 20, ' ');
    let screens: HashMap<PaneId, &Screen> =
        [0, 1, 7, 9].into_iter().map(|id| (id, &blank)).collect();
    let theme = CompositorTheme::default();
    let over = |rect: Rect| {
        build_composite("s", 80, 24, "NORMAL", &st, &screens, None, None, 0, rect, &theme)
            .regions
            .stack_regions
            .len()
    };
    assert!(over(Rect { x: 0, y: 20, width: 9, height: 3 }) > 0);
    assert_eq!(over(Rect { x: 0, y: 0, width: 80, height: 23 }), 0);
}

#[test]
fn a_snapshot_shows_the_live_screen() {
    let s = filled(3, 2, 'z');
    let snap = render_pane_snapshot(&s);
    assert_eq!((snap.cols, snap.rows), (3, 2));
    assert!(snap.cells.iter().flatten().all(|c| c.c == 'z'));
}
