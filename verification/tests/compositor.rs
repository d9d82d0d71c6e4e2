//! What is drawn, where, and what a position on it means.

use remux::blit::render_pane_snapshot_at;
use remux::boxes::{
    border_fg, box_bottom_line, box_rule_line, box_top_line, box_top_line_titled,
    draw_zellij_box, pane_content_rect, sharp_box_bottom_line, sharp_box_top_line, BOX_TOP_LEFT,
    BOX_TOP_RIGHT,
};
use remux::compositor::{composite, draw_popup, draw_zellij_border, draw_zellij_panes};
use remux::config::{BorderStyle, CompositorTheme, TabActivity};
use remux::geometry::compute_layout;
use remux::hit::{hit_test, ClickTarget, HitRegions, StackRegion, TabRegion};
use remux::layout::{find_stack_names, set_pane_name, LayoutNode, PaneId, Rect};
use remux::protocol::{CellColor, RenderCell};
use remux::screen::{convert_color, Cell, Color, Row, Screen};
use remux::status_bar::{
    draw_right_segments, draw_status_bar, status_right_segments, StatusInfo,
};
use remux::tab_strip::{
    build_top_border_content, display_tab_names, draw_tmux_tab_bar, tab_strip_layout,
    tab_strip_width, TabStripEntry,
};
use std::collections::HashMap;

const TAB_SEPARATOR: &str = " | ";

/// Print text on a screen: the first line that does not fit scrolls into the history.
fn feed(s: &mut Screen, text: &str) {
    for c in text.chars() {
        match c {
            '\r' => s.cursor_x = 0,
            '\n' => {
                if s.cursor_y + 1 < s.rows {
                    s.cursor_y += 1;
                } else {
                    let top = s.grid.remove(0);
                    s.scrollback.push(top);
                    let cells = (0..s.cols).map(|_| Cell::empty()).collect();
                    s.grid.push(Row { cells, wrapped: false });
                }
            }
            other => {
                let (x, y) = (s.cursor_x as usize, s.cursor_y as usize);
                s.grid[y].cells[x].c = other;
                s.cursor_x += 1;
            }
        }
    }
}

#[test]
fn test_composite_single_pane() {
    let layout = LayoutNode::new_stack(1);
    let screen = Screen::new(10, 5, 100);
    let mut pane_screens = HashMap::new();
    pane_screens.insert(1, &screen);

    let area = Rect {
        x: 0,
        y: 0,
        width: 10,
        height: 4,
    };
    let status = StatusInfo {
        mode: "NORMAL".to_string(),
        session_name: "test".to_string(),
        tabs: vec![("Tab 1".to_string(), true, TabActivity::Quiet)],
        layout_mode: "bsp".to_string(),
        search_info: None,
    };

    let (result, _hit_regions) = composite(
        &layout,
        &pane_screens,
        area,
        &BorderStyle::TmuxStyle,
        &status,
        10,
        5,
        0,
        1,
        None,
        &HashMap::new(),
        &CompositorTheme::default(),
    );

    assert_eq!(result.len(), 5);
    assert_eq!(result[0].len(), 10);
}

#[test]
fn test_convert_color() {
    assert_eq!(convert_color(&Color::Default), CellColor::Default);
    assert_eq!(convert_color(&Color::Indexed(5)), CellColor::Indexed(5));
    assert_eq!(
        convert_color(&Color::Rgb(10, 20, 30)),
        CellColor::Rgb(10, 20, 30)
    );
}

#[test]
fn test_status_bar_drawn() {
    let layout = LayoutNode::new_stack(1);
    let screen = Screen::new(20, 5, 100);
    let mut pane_screens = HashMap::new();
    pane_screens.insert(1, &screen);

    let area = Rect {
        x: 0,
        y: 0,
        width: 20,
        height: 4,
    };
    let status = StatusInfo {
        mode: "COMMAND".to_string(),
        session_name: "main".to_string(),
        tabs: vec![("Tab 1".to_string(), true, TabActivity::Quiet)],
        layout_mode: "bsp".to_string(),
        search_info: None,
    };

    let (result, _hit_regions) = composite(
        &layout,
        &pane_screens,
        area,
        &BorderStyle::TmuxStyle,
        &status,
        20,
        5,
        0,
        1,
        None,
        &HashMap::new(),
        &CompositorTheme::default(),
    );

    // The last row should have the mode indicator.
    let last_row = &result[4];
    let text: String = last_row.iter().map(|c| c.c).collect();
    assert!(text.contains("COMMAND"));
}

#[test]
fn test_gap_cells_are_default() {
    // Vertical split with gap_size=2 should leave gap columns as default cells.
    let mut layout = LayoutNode::new_stack(1);
    layout.split_vertical(1, 2);

    let screen1 = Screen::new(20, 8, 100);
    let screen2 = Screen::new(20, 8, 100);
    let mut pane_screens = HashMap::new();
    pane_screens.insert(1, &screen1);
    pane_screens.insert(2, &screen2);

    let area = Rect {
        x: 0,
        y: 0,
        width: 20,
        height: 8,
    };
    let status = StatusInfo {
        mode: "COMMAND".to_string(),
        session_name: "test".to_string(),
        tabs: vec![("Tab 1".to_string(), true, TabActivity::Quiet)],
        layout_mode: "bsp".to_string(),
        search_info: None,
    };

    let gap_size = 2;
    let (result, _hit_regions) = composite(
        &layout,
        &pane_screens,
        area,
        &BorderStyle::TmuxStyle,
        &status,
        20,
        9,
        gap_size,
        1,
        None,
        &HashMap::new(),
        &CompositorTheme::default(),
    );

    // Compute the pane rects to find where the gap is.
    let pane_rects = compute_layout(&layout, area, gap_size);
    let (_, r1) = pane_rects[0];
    let (_, r2) = pane_rects[1];
    // The gap is between r1.x + r1.width and r2.x.
    let gap_start = (r1.x + r1.width) as usize;
    let gap_end = r2.x as usize;
    assert!(gap_end > gap_start, "gap region should be non-empty");

    // Verify gap columns contain default cells in content rows.
    let default_cell = RenderCell::default();
    for (row, row_cells) in result.iter().enumerate().take(area.height as usize) {
        for (col, cell) in row_cells.iter().enumerate().take(gap_end).skip(gap_start) {
            assert_eq!(
                *cell, default_cell,
                "gap cell at ({col}, {row}) should be default"
            );
        }
    }
}

#[test]
fn test_zellij_single_pane_has_border() {
    let layout = LayoutNode::new_stack(1);
    let screen = Screen::new(18, 8, 100);
    let mut pane_screens = HashMap::new();
    pane_screens.insert(1, &screen);

    let area = Rect {
        x: 0,
        y: 0,
        width: 20,
        height: 10,
    };
    let status = StatusInfo {
        mode: "COMMAND".to_string(),
        session_name: "test".to_string(),
        tabs: vec![("Tab 1".to_string(), true, TabActivity::Quiet)],
        layout_mode: "bsp".to_string(),
        search_info: None,
    };

    let (result, _hit_regions) = composite(
        &layout,
        &pane_screens,
        area,
        &BorderStyle::ZellijStyle,
        &status,
        20,
        11,
        0,
        1,
        None,
        &HashMap::new(),
        &CompositorTheme::default(),
    );

    // Top-left corner should be ╭.
    assert_eq!(result[0][0].c, '\u{256D}');
    // Top-right corner should be ╮.
    assert_eq!(result[0][19].c, '\u{256E}');
    // Bottom-left corner should be ╰.
    assert_eq!(result[9][0].c, '\u{2570}');
    // Bottom-right corner should be ╯.
    assert_eq!(result[9][19].c, '\u{256F}');
}

#[test]
fn test_zellij_active_pane_green_border() {
    let mut layout = LayoutNode::new_stack(1);
    layout.split_vertical(1, 2);

    let screen1 = Screen::new(10, 10, 100);
    let screen2 = Screen::new(10, 10, 100);
    let mut pane_screens = HashMap::new();
    pane_screens.insert(1, &screen1);
    pane_screens.insert(2, &screen2);

    let area = Rect {
        x: 0,
        y: 0,
        width: 20,
        height: 10,
    };
    let status = StatusInfo {
        mode: "COMMAND".to_string(),
        session_name: "test".to_string(),
        tabs: vec![("Tab 1".to_string(), true, TabActivity::Quiet)],
        layout_mode: "bsp".to_string(),
        search_info: None,
    };

    let (result, _hit_regions) = composite(
        &layout,
        &pane_screens,
        area,
        &BorderStyle::ZellijStyle,
        &status,
        20,
        11,
        0,
        1, // pane 1 is focused
        None,
        &HashMap::new(),
        &CompositorTheme::default(),
    );

    // Active pane (1) top-left corner should be green (Catppuccin Mocha blue).
    assert_eq!(result[0][0].fg, CellColor::Rgb(137, 180, 250));

    // Inactive pane (2) should have dark grey border.
    let pane_rects = compute_layout(&layout, area, 0);
    let (_, r2) = pane_rects[1];
    assert_eq!(
        result[r2.y as usize][r2.x as usize].fg,
        CellColor::Rgb(88, 91, 112)
    );
}

#[test]
fn test_zellij_horizontal_split_has_borders() {
    let mut layout = LayoutNode::new_stack(1);
    layout.split_horizontal(1, 2);

    let screen1 = Screen::new(20, 5, 100);
    let screen2 = Screen::new(20, 5, 100);
    let mut pane_screens = HashMap::new();
    pane_screens.insert(1, &screen1);
    pane_screens.insert(2, &screen2);

    let area = Rect {
        x: 0,
        y: 0,
        width: 20,
        height: 10,
    };
    let status = StatusInfo {
        mode: "COMMAND".to_string(),
        session_name: "test".to_string(),
        tabs: vec![("Tab 1".to_string(), true, TabActivity::Quiet)],
        layout_mode: "bsp".to_string(),
        search_info: None,
    };

    let (result, _hit_regions) = composite(
        &layout,
        &pane_screens,
        area,
        &BorderStyle::ZellijStyle,
        &status,
        20,
        11,
        0,
        1,
        None,
        &HashMap::new(),
        &CompositorTheme::default(),
    );

    // Both panes should have rounded corners.
    assert_eq!(result[0][0].c, '\u{256D}'); // Top pane top-left
    assert_eq!(result[0][19].c, '\u{256E}'); // Top pane top-right

    // Check that horizontal border characters exist somewhere.
    let has_horizontal = result.iter().take(10).any(|row| {
        row.iter()
            .any(|cell| cell.c == '\u{2500}' || cell.c == '\u{2570}' || cell.c == '\u{256F}')
    });
    assert!(has_horizontal, "expected horizontal border characters");
}

/// A popup's frame IS a zellij pane's frame -- same box, same title
/// treatment, same colors.
///
/// A change to a corner glyph or a border color cannot reach the panes and miss
/// the thing floating over them.
#[test]
fn a_popups_frame_is_a_zellij_panes_frame() {
    let theme = CompositorTheme::default();
    let screen = Screen::new(10, 4, 100);
    let rect = Rect {
        x: 1,
        y: 1,
        width: 12,
        height: 6,
    };
    let mut popup = vec![vec![RenderCell::default(); 16]; 10];
    draw_popup(
        &mut popup, rect, 7, &screen, "term", "NORMAL", 0, None, &theme,
    );

    let mut pane = vec![vec![RenderCell::default(); 16]; 10];
    let stack = Some((vec!["term".to_string()], vec![7], 0usize));
    draw_zellij_border(
        &mut pane,
        rect,
        &theme.frame_active_fg,
        &stack,
        7,
        "NORMAL",
        &theme,
    );

    // The perimeter only: the popup also blits its screen into the interior.
    let (x0, y0) = (rect.x as usize, rect.y as usize);
    let (x1, y1) = (x0 + rect.width as usize - 1, y0 + rect.height as usize - 1);
    for y in y0..=y1 {
        for x in x0..=x1 {
            if y != y0 && y != y1 && x != x0 && x != x1 {
                continue;
            }
            assert_eq!(
                popup[y][x], pane[y][x],
                "popup and pane frames differ at ({x}, {y})"
            );
        }
    }
}

/// The popup's interior is `pane_content_rect`, not a local `+1 / -2`.
#[test]
fn a_popups_interior_is_the_shared_content_rect() {
    let theme = CompositorTheme::default();
    let screen = Screen::new(10, 4, 100);
    let rect = Rect {
        x: 1,
        y: 1,
        width: 12,
        height: 6,
    };
    let mut buf = vec![vec![RenderCell::default(); 16]; 10];
    let interior = draw_popup(
        &mut buf, rect, 7, &screen, "term", "NORMAL", 0, None, &theme,
    );
    // Literal numbers: comparing against the very function that `draw_popup` calls
    // would say nothing.
    assert_eq!(
        interior,
        Rect {
            x: 2,
            y: 2,
            width: 10,
            height: 4
        }
    );
    // ... and they are what the shared function says, which is the claim.
    assert_eq!(
        interior,
        pane_content_rect(&BorderStyle::ZellijStyle, rect, false)
    );
}

/// Every border in the program resolves its focus colour through one rule.
///
/// The glyphs are shared; this is the same argument one level up.
#[test]
fn one_rule_decides_every_borders_focus_colour() {
    let theme = CompositorTheme::default();
    assert_eq!(border_fg(&theme, true), theme.frame_active_fg);
    assert_eq!(border_fg(&theme, false), theme.frame_fg);
    assert_ne!(
        theme.frame_fg, theme.frame_active_fg,
        "the default theme must distinguish them or this test proves nothing"
    );

    // A focused pane's border really is what the rule returns.
    let layout = LayoutNode::new_stack(1);
    let screen = Screen::new(18, 8, 100);
    let mut panes = HashMap::new();
    panes.insert(1, &screen);
    let status = StatusInfo {
        mode: "NORMAL".to_string(),
        session_name: "t".to_string(),
        tabs: vec![("Tab 1".to_string(), true, TabActivity::Quiet)],
        layout_mode: "bsp".to_string(),
        search_info: None,
    };
    let (buf, _) = composite(
        &layout,
        &panes,
        Rect {
            x: 0,
            y: 0,
            width: 20,
            height: 10,
        },
        &BorderStyle::ZellijStyle,
        &status,
        20,
        11,
        0,
        1,
        None,
        &HashMap::new(),
        &theme,
    );
    assert_eq!(buf[0][0].fg, border_fg(&theme, true));
}

/// Every string builder, pinned to LITERAL glyphs.
///
/// Deliberately literal rather than written in terms of the constants: a
/// golden that moves when the constant moves pins nothing.
#[test]
fn the_string_builders_are_pinned_to_literal_glyphs() {
    assert_eq!(box_top_line(3), "\u{256D}\u{2500}\u{2500}\u{2500}\u{256E}");
    assert_eq!(
        box_bottom_line(3),
        "\u{2570}\u{2500}\u{2500}\u{2500}\u{256F}"
    );
    assert_eq!(box_rule_line(3), "\u{251C}\u{2500}\u{2500}\u{2500}\u{2524}");
    assert_eq!(
        box_top_line_titled(1, "x", 1),
        "\u{256D}\u{2500}x\u{2500}\u{256E}"
    );
    // The second family. Sharp corners, and they must stay sharp.
    assert_eq!(
        sharp_box_top_line(3),
        "\u{250C}\u{2500}\u{2500}\u{2500}\u{2510}"
    );
    assert_eq!(
        sharp_box_bottom_line(3),
        "\u{2514}\u{2500}\u{2500}\u{2500}\u{2518}"
    );
}

/// The string builders and the grid drawing use the SAME glyphs.
///
/// The overlays cannot share a drawing routine with the compositor -- they
/// emit `DrawCommand` text, not cells -- so this is what keeps the two
/// mechanisms showing the same box.
#[test]
fn the_string_builders_and_the_grid_agree_on_every_glyph() {
    let theme = CompositorTheme::default();
    let rect = Rect {
        x: 0,
        y: 0,
        width: 6,
        height: 3,
    };
    let mut grid = vec![vec![RenderCell::default(); 6]; 3];
    draw_zellij_box(&mut grid, rect, &theme.frame_fg, &theme);
    let top: String = grid[0].iter().map(|c| c.c).collect();
    let bottom: String = grid[2].iter().map(|c| c.c).collect();
    assert_eq!(top, box_top_line(4));
    assert_eq!(bottom, box_bottom_line(4));
    assert_eq!(
        box_top_line_titled(1, "ab", 1),
        format!("{BOX_TOP_LEFT}\u{2500}ab\u{2500}{BOX_TOP_RIGHT}")
    );
}

#[test]
fn test_tmux_single_pane_no_tab_bar() {
    let layout = LayoutNode::new_stack(1);
    let screen = Screen::new(20, 10, 100);
    let mut pane_screens = HashMap::new();
    pane_screens.insert(1, &screen);

    let area = Rect {
        x: 0,
        y: 0,
        width: 20,
        height: 10,
    };
    let status = StatusInfo {
        mode: "COMMAND".to_string(),
        session_name: "test".to_string(),
        tabs: vec![("Tab 1".to_string(), true, TabActivity::Quiet)],
        layout_mode: "bsp".to_string(),
        search_info: None,
    };

    let (result, _hit_regions) = composite(
        &layout,
        &pane_screens,
        area,
        &BorderStyle::TmuxStyle,
        &status,
        20,
        11,
        0,
        1,
        None,
        &HashMap::new(),
        &CompositorTheme::default(),
    );

    // First row should not have tab bar (dark grey background).
    // It should just have the pane content (default bg for empty screen).
    assert_ne!(result[0][0].bg, CellColor::Indexed(8));
}

#[test]
fn test_tmux_multi_pane_stack_has_tab_bar() {
    let mut layout = LayoutNode::new_stack(1);
    layout.add_to_stack(1, 2);

    let screen1 = Screen::new(20, 10, 100);
    let screen2 = Screen::new(20, 10, 100);
    let mut pane_screens = HashMap::new();
    pane_screens.insert(1, &screen1);
    pane_screens.insert(2, &screen2);

    let area = Rect {
        x: 0,
        y: 0,
        width: 20,
        height: 10,
    };
    let status = StatusInfo {
        mode: "COMMAND".to_string(),
        session_name: "test".to_string(),
        tabs: vec![("Tab 1".to_string(), true, TabActivity::Quiet)],
        layout_mode: "bsp".to_string(),
        search_info: None,
    };

    // Pane 2 is active (last added).
    let (result, _hit_regions) = composite(
        &layout,
        &pane_screens,
        area,
        &BorderStyle::TmuxStyle,
        &status,
        20,
        11,
        0,
        2,
        None,
        &HashMap::new(),
        &CompositorTheme::default(),
    );

    // First row should be the tab bar; its inactive tab wears the named
    // `tab_inactive_bg` role (which defaults to the historical Indexed 237).
    assert_eq!(result[0][0].bg, CompositorTheme::default().tab_inactive_bg);
}

// -----------------------------------------------------------------------
// Tab strip geometry: ONE helper drives both renderers and both hit-testers
// -----------------------------------------------------------------------

fn names(v: &[&str]) -> Vec<String> {
    v.iter().map(|s| s.to_string()).collect()
}

#[test]
fn tab_strip_layout_places_multi_tabs_with_separators() {
    // Longest name "gamma" (5) + 2 = 7-wide tabs, a leading pad space in
    // zellij style, `" | "` (3) between tabs.
    let n = names(&["alpha", "bb", "gamma"]);
    let zj = tab_strip_layout(&n, 80, &BorderStyle::ZellijStyle);
    assert_eq!(
        zj,
        vec![
            TabStripEntry {
                index: 0,
                start: 1,
                end: 8
            },
            TabStripEntry {
                index: 1,
                start: 11,
                end: 18
            },
            TabStripEntry {
                index: 2,
                start: 21,
                end: 28
            },
        ]
    );
    // The tmux tab bar is flush left; everything else is identical.
    let tm = tab_strip_layout(&n, 80, &BorderStyle::TmuxStyle);
    assert_eq!(
        tm,
        vec![
            TabStripEntry {
                index: 0,
                start: 0,
                end: 7
            },
            TabStripEntry {
                index: 1,
                start: 10,
                end: 17
            },
            TabStripEntry {
                index: 2,
                start: 20,
                end: 27
            },
        ]
    );
}

#[test]
fn tab_strip_layout_single_title_is_flush_not_offset() {
    // The zellij top border draws a lone title as a bare ` name ` chip flush at
    // the strip's start, not offset by the multi-tab leading pad space.
    let n = names(&["solo"]);
    let zj = tab_strip_layout(&n, 80, &BorderStyle::ZellijStyle);
    assert_eq!(
        zj,
        vec![TabStripEntry {
            index: 0,
            start: 0,
            end: 6
        }]
    );

    // And the layout agrees with what `build_top_border_content` paints:
    // the chip occupies exactly columns 0..6 of the strip.
    let theme = CompositorTheme::default();
    let stack = Some((names(&["solo"]), vec![1 as PaneId], 0usize));
    let cells = build_top_border_content(&stack, 1, &theme.frame_fg, "NORMAL", 80, &theme);
    let text: String = cells.iter().map(|c| c.c).collect();
    assert_eq!(text, " solo ");
    assert_eq!(cells.len(), zj[0].end - zj[0].start);
}

#[test]
fn tab_strip_layout_measures_chars_not_bytes() {
    // Measured in bytes, a multi-byte title would come out 4 columns wider.
    let n = names(&["日本語", "ab"]);
    assert_eq!(tab_strip_width(&n, 80), 5); // 3 chars + 2, NOT 9 bytes + 2
    let layout = tab_strip_layout(&n, 80, &BorderStyle::ZellijStyle);
    assert_eq!(
        layout,
        vec![
            TabStripEntry {
                index: 0,
                start: 1,
                end: 6
            },
            TabStripEntry {
                index: 1,
                start: 9,
                end: 14
            },
        ]
    );
}

#[test]
fn tab_strip_layout_drops_tabs_past_the_right_edge() {
    let n = names(&["alpha", "bb", "gamma"]);
    // Room for the first tab and a clipped second; the third is dropped.
    let layout = tab_strip_layout(&n, 14, &BorderStyle::ZellijStyle);
    assert_eq!(
        layout,
        vec![
            TabStripEntry {
                index: 0,
                start: 1,
                end: 8
            },
            TabStripEntry {
                index: 1,
                start: 11,
                end: 14
            },
        ]
    );
    assert!(tab_strip_layout(&names(&[]), 80, &BorderStyle::ZellijStyle).is_empty());
}

#[test]
fn clipped_tab_is_painted_exactly_where_the_layout_says() {
    // A strip too narrow for its tabs: the last visible tab is clipped, and
    // its painted block must fill exactly the clipped range the layout
    // reports (padding is centered within the CLIPPED width, so paint and
    // hit-test agree).
    let theme = CompositorTheme::default();
    let stack = Some((names(&["alpha", "bb"]), vec![1 as PaneId, 2], 0usize));
    let layout = tab_strip_layout(&names(&["alpha", "bb"]), 14, &BorderStyle::ZellijStyle);
    assert_eq!(
        layout[1],
        TabStripEntry {
            index: 1,
            start: 11,
            end: 14
        }
    );
    let cells = build_top_border_content(&stack, 1, &theme.frame_fg, "NORMAL", 14, &theme);
    // The clipped tab occupies columns 11..14 of the strip content.
    for (i, cell) in cells.iter().enumerate().take(14).skip(11) {
        assert_eq!(cell.bg, theme.tab_inactive_bg, "strip col {i}");
    }
    // ...and the separator immediately before it is not part of the block.
    assert_ne!(cells[10].bg, theme.tab_inactive_bg);
}

#[test]
fn tmux_tab_bar_separator_is_placed_from_the_layout() {
    // The separator's column is derived from the previous tab's end.
    let theme = CompositorTheme::default();
    let display = names(&["a", "b"]);
    let stack = Some((display.clone(), vec![1 as PaneId, 2], 0usize));
    let mut buffer = vec![vec![RenderCell::default(); 20]; 2];
    let mut regions = HitRegions::default();
    draw_tmux_tab_bar(
        &mut buffer,
        Rect {
            x: 0,
            y: 0,
            width: 20,
            height: 2,
        },
        &stack,
        "NORMAL",
        &mut regions,
        &theme,
    );
    let layout = tab_strip_layout(&display, 20, &BorderStyle::TmuxStyle);
    // 3-wide tabs flush left: 0..3, separator 3..6, second tab 6..9.
    assert_eq!(layout[0].end, 3);
    assert_eq!(layout[1].start, 6);
    let sep: String = (layout[0].end..layout[1].start)
        .map(|x| buffer[0][x].c)
        .collect();
    assert_eq!(sep, TAB_SEPARATOR);
    assert_eq!(buffer[0][layout[0].end].fg, theme.separator_fg);

    // A strip so narrow the second tab is dropped must still not panic.
    let mut narrow = vec![vec![RenderCell::default(); 4]; 2];
    let mut r2 = HitRegions::default();
    draw_tmux_tab_bar(
        &mut narrow,
        Rect {
            x: 0,
            y: 0,
            width: 4,
            height: 2,
        },
        &stack,
        "NORMAL",
        &mut r2,
        &theme,
    );
    assert_eq!(r2.stack_regions.len(), 1, "only the first tab fits");
}

#[test]
fn empty_pane_names_fall_back_to_ids_everywhere() {
    // `display_tab_names` is what every strip measures and renders over.
    let d = display_tab_names(&names(&["", "named"]), &[7, 8]);
    assert_eq!(d, names(&["7", "named"]));
}

#[test]
fn zellij_hit_regions_match_the_painted_tab_columns() {
    // A renderer and its own hit-tester agree about where a tab starts. Composite a real
    // 2-pane stack and check every recorded stack region against the columns
    // that actually carry a tab-block background.
    let mut layout = LayoutNode::new_stack(1);
    assert!(layout.add_to_stack(1, 2), "stacked pane 2 onto pane 1");
    set_pane_name(&mut layout, 1, "alpha");
    set_pane_name(&mut layout, 2, "bb");
    let s1 = Screen::new(30, 8, 100);
    let s2 = Screen::new(30, 8, 100);
    let mut pane_screens = HashMap::new();
    pane_screens.insert(1 as PaneId, &s1);
    pane_screens.insert(2 as PaneId, &s2);
    let theme = CompositorTheme::default();
    let area = Rect {
        x: 0,
        y: 0,
        width: 40,
        height: 10,
    };
    let mut regions = HitRegions::default();
    let mut buffer = vec![vec![RenderCell::default(); 40]; 10];
    draw_zellij_panes(
        &mut buffer,
        &[(1, area)],
        &pane_screens,
        &layout,
        1,
        "NORMAL",
        &mut regions,
        &HashMap::new(),
        &theme,
    );
    assert_eq!(regions.stack_regions.len(), 2, "one region per stacked tab");
    let (_, mode_bg) = theme.mode_colors("NORMAL");
    // Which tab is ACTIVE is the stack's own business, not the focused
    // pane's -- ask the same source the renderer did.
    let (_, stack_ids, active_idx) = find_stack_names(&layout, 1).expect("stack info");
    let active_pane = stack_ids[active_idx];
    for region in &regions.stack_regions {
        let expect_bg = if region.pane_id == active_pane {
            mode_bg.clone()
        } else {
            theme.tab_inactive_bg.clone()
        };
        for x in region.x_start..region.x_end {
            assert_eq!(
                buffer[0][x as usize].bg, expect_bg,
                "pane {} col {x} is not part of its painted tab block",
                region.pane_id
            );
        }
        // The column just left of the region is NOT part of the block, so
        // the region's left edge is the tab's true left edge.
        assert_ne!(
            buffer[0][(region.x_start - 1) as usize].bg,
            expect_bg,
            "region for pane {} starts one column too late",
            region.pane_id
        );
    }
}

#[test]
fn tmux_tab_bar_hit_regions_match_the_painted_columns() {
    let theme = CompositorTheme::default();
    let stack = Some((names(&["alpha", "bb"]), vec![1 as PaneId, 2], 0usize));
    let mut buffer = vec![vec![RenderCell::default(); 40]; 3];
    let mut regions = HitRegions::default();
    draw_tmux_tab_bar(
        &mut buffer,
        Rect {
            x: 0,
            y: 0,
            width: 40,
            height: 3,
        },
        &stack,
        "NORMAL",
        &mut regions,
        &theme,
    );
    assert_eq!(regions.stack_regions.len(), 2);
    let (_, mode_bg) = theme.mode_colors("NORMAL");
    // Flush left, so the first tab starts at column 0.
    assert_eq!(regions.stack_regions[0].x_start, 0);
    for region in &regions.stack_regions {
        // `stack` above declares index 0 (pane 1) active.
        let expect_bg = if region.pane_id == 1 {
            mode_bg.clone()
        } else {
            theme.tab_inactive_bg.clone()
        };
        for x in region.x_start..region.x_end {
            assert_eq!(buffer[0][x as usize].bg, expect_bg, "col {x}");
        }
    }
}

// -----------------------------------------------------------------------
// Status bar right-hand segments (shared with the client's View bar)
// -----------------------------------------------------------------------

#[test]
fn status_right_segments_are_themed_not_hardcoded() {
    let theme = CompositorTheme::default();
    let segs = status_right_segments(Some((2, 9)), "bsp", &theme);
    assert_eq!(segs.len(), 2);
    assert_eq!(segs[0].text, " (3/9) ");
    assert_eq!(segs[0].fg, theme.search_count_fg);
    assert_eq!(segs[0].bg, theme.search_count_bg);
    assert!(!segs[0].bold);
    assert_eq!(segs[1].text, " bsp ");
    assert_eq!(segs[1].fg, theme.layout_indicator_fg);
    assert_eq!(segs[1].bg, theme.layout_indicator_bg);
    assert!(!segs[1].bold, "the layout indicator is NOT bold");

    // No search, no layout name -> nothing to draw.
    assert!(status_right_segments(None, "", &theme).is_empty());
    assert_eq!(status_right_segments(None, "grid", &theme).len(), 1);
}

#[test]
fn draw_right_segments_is_right_aligned_and_drops_on_overlap() {
    let theme = CompositorTheme::default();
    let segs = status_right_segments(None, "grid", &theme); // " grid " = 6
    let mut row = vec![RenderCell::default(); 20];
    draw_right_segments(&mut row, 20, 0, &segs);
    let text: String = row.iter().map(|c| c.c).collect();
    assert_eq!(text, format!("{}{}", " ".repeat(14), " grid "));
    assert_eq!(row[19].fg, theme.layout_indicator_fg);
    assert_eq!(row[19].bg, theme.layout_indicator_bg);

    // The left content reaches column 15: the segment would overlap it, so
    // it is dropped rather than shifted.
    let mut row2 = vec![RenderCell::default(); 20];
    draw_right_segments(&mut row2, 20, 15, &segs);
    assert!(
        row2.iter().all(|c| c.bg != theme.layout_indicator_bg),
        "should have drawn nothing"
    );
}

#[test]
fn right_segments_may_begin_where_the_left_content_ends() {
    let theme = CompositorTheme::default();
    let segs = status_right_segments(None, "grid", &theme); // " grid " = 6
    let mut row: Vec<RenderCell> =
        (0..20).map(|_| RenderCell { c: 'x', ..RenderCell::default() }).collect();
    draw_right_segments(&mut row, 20, 14, &segs);
    let text: String = row.iter().map(|c| c.c).collect();
    assert_eq!(text, format!("{}{}", "x".repeat(14), " grid "));
}

#[test]
fn draw_right_segments_counts_chars_not_bytes() {
    let theme = CompositorTheme::default();
    let segs = status_right_segments(None, "日本", &theme); // 4 chars, 8 bytes
    let mut row = vec![RenderCell::default(); 20];
    draw_right_segments(&mut row, 20, 0, &segs);
    let text: String = row.iter().map(|c| c.c).collect();
    assert!(
        text.ends_with(" 日本 "),
        "not right-aligned by chars: {text:?}"
    );
    // 4 chars -> starts at column 16. Sized in BYTES it would have started
    // at column 12.
    assert_eq!(row[17].c, '日');
    assert_ne!(row[13].bg, theme.layout_indicator_bg);
}

#[test]
fn test_zellij_pane_name_in_border() {
    let mut layout = LayoutNode::new_stack(1);
    set_pane_name(&mut layout, 1, "myshell");

    let screen = Screen::new(18, 8, 100);
    let mut pane_screens = HashMap::new();
    pane_screens.insert(1, &screen);

    let area = Rect {
        x: 0,
        y: 0,
        width: 20,
        height: 10,
    };
    let status = StatusInfo {
        mode: "COMMAND".to_string(),
        session_name: "test".to_string(),
        tabs: vec![("Tab 1".to_string(), true, TabActivity::Quiet)],
        layout_mode: "bsp".to_string(),
        search_info: None,
    };

    let (result, _hit_regions) = composite(
        &layout,
        &pane_screens,
        area,
        &BorderStyle::ZellijStyle,
        &status,
        20,
        11,
        0,
        1,
        None,
        &HashMap::new(),
        &CompositorTheme::default(),
    );

    // The top row should contain the pane name "myshell".
    let top_row: String = result[0].iter().map(|c| c.c).collect();
    assert!(
        top_row.contains("myshell"),
        "expected pane name 'myshell' in top border, got: {top_row}"
    );
}

#[test]
fn test_zellij_stacked_tabs_in_border() {
    let mut layout = LayoutNode::new_stack(1);
    layout.add_to_stack(1, 2);
    set_pane_name(&mut layout, 1, "vim");
    set_pane_name(&mut layout, 2, "cargo");

    let screen = Screen::new(28, 8, 100);
    let mut pane_screens = HashMap::new();
    // Only the active pane (2) is rendered in compute_layout.
    pane_screens.insert(2, &screen);

    let area = Rect {
        x: 0,
        y: 0,
        width: 30,
        height: 10,
    };
    let status = StatusInfo {
        mode: "COMMAND".to_string(),
        session_name: "test".to_string(),
        tabs: vec![("Tab 1".to_string(), true, TabActivity::Quiet)],
        layout_mode: "bsp".to_string(),
        search_info: None,
    };

    let (result, _hit_regions) = composite(
        &layout,
        &pane_screens,
        area,
        &BorderStyle::ZellijStyle,
        &status,
        30,
        11,
        0,
        2,
        None,
        &HashMap::new(),
        &CompositorTheme::default(),
    );

    // The top row should contain both stacked pane names.
    let top_row: String = result[0].iter().map(|c| c.c).collect();
    assert!(
        top_row.contains("vim"),
        "expected 'vim' in top border, got: {top_row}"
    );
    assert!(
        top_row.contains("cargo"),
        "expected 'cargo' in top border, got: {top_row}"
    );
}

#[test]
fn test_tmux_single_pane_no_border() {
    let layout = LayoutNode::new_stack(1);
    let screen = Screen::new(20, 10, 100);
    let mut pane_screens = HashMap::new();
    pane_screens.insert(1, &screen);

    let area = Rect {
        x: 0,
        y: 0,
        width: 20,
        height: 10,
    };
    let status = StatusInfo {
        mode: "COMMAND".to_string(),
        session_name: "test".to_string(),
        tabs: vec![("Tab 1".to_string(), true, TabActivity::Quiet)],
        layout_mode: "bsp".to_string(),
        search_info: None,
    };

    let (result, _hit_regions) = composite(
        &layout,
        &pane_screens,
        area,
        &BorderStyle::TmuxStyle,
        &status,
        20,
        11,
        0,
        1,
        None,
        &HashMap::new(),
        &CompositorTheme::default(),
    );

    // No border characters should appear in the pane area.
    let border_chars = [
        '\u{256D}', '\u{256E}', '\u{2570}', '\u{256F}', '\u{2502}', '\u{2500}',
    ];
    for (row, row_cells) in result.iter().enumerate().take(10) {
        for (col, cell) in row_cells.iter().enumerate().take(20) {
            assert!(
                !border_chars.contains(&cell.c),
                "unexpected border character '{}' at ({col}, {row})",
                cell.c
            );
        }
    }
}

#[test]
fn test_tmux_stacked_tab_bar() {
    let mut layout = LayoutNode::new_stack(1);
    layout.add_to_stack(1, 2);
    layout.add_to_stack(2, 3);
    set_pane_name(&mut layout, 1, "bash");
    set_pane_name(&mut layout, 2, "vim");
    set_pane_name(&mut layout, 3, "htop");

    let screen = Screen::new(40, 10, 100);
    let mut pane_screens = HashMap::new();
    // Active pane is 3 (last added).
    pane_screens.insert(3, &screen);

    let area = Rect {
        x: 0,
        y: 0,
        width: 40,
        height: 10,
    };
    let status = StatusInfo {
        mode: "COMMAND".to_string(),
        session_name: "test".to_string(),
        tabs: vec![("Tab 1".to_string(), true, TabActivity::Quiet)],
        layout_mode: "bsp".to_string(),
        search_info: None,
    };

    let (result, _hit_regions) = composite(
        &layout,
        &pane_screens,
        area,
        &BorderStyle::TmuxStyle,
        &status,
        40,
        11,
        0,
        3,
        None,
        &HashMap::new(),
        &CompositorTheme::default(),
    );

    // First row should be a tab bar with all pane names.
    let tab_row: String = result[0].iter().map(|c| c.c).collect();
    assert!(
        tab_row.contains("bash"),
        "expected 'bash' in tab bar, got: {tab_row}"
    );
    assert!(
        tab_row.contains("vim"),
        "expected 'vim' in tab bar, got: {tab_row}"
    );
    assert!(
        tab_row.contains("htop"),
        "expected 'htop' in tab bar, got: {tab_row}"
    );
}

#[test]
fn render_pane_snapshot_at_shows_scrollback_and_hides_cursor() {
    // 4-col x 2-row grid; feed 6 lines so 4 fall into scrollback.
    let mut s = Screen::new(4, 2, 100);
    feed(&mut s, "L1\r\nL2\r\nL3\r\nL4\r\nL5\r\nL6");

    // Live view (offset 0): shows the last two rows and a visible cursor.
    let live = render_pane_snapshot_at(&s, 0);
    let live_text: String = live.cells[live.rows as usize - 1]
        .iter()
        .map(|c| c.c)
        .collect();
    assert!(
        live_text.starts_with("L6"),
        "live bottom row should be the newest line, got {live_text:?}"
    );
    assert!(live.cursor_visible, "cursor visible at offset 0");

    // Scrolled back one line: the bottom row is now the previous line, and
    // the cursor is reported hidden (matches the foreground scrollback view).
    let back = render_pane_snapshot_at(&s, 1);
    let back_text: String = back.cells[back.rows as usize - 1]
        .iter()
        .map(|c| c.c)
        .collect();
    assert!(
        back_text.starts_with("L5"),
        "scrolled bottom row should be one line earlier, got {back_text:?}"
    );
    assert!(!back.cursor_visible, "cursor hidden while scrolled back");
}

#[test]
fn test_tmux_dividers_between_splits() {
    let mut layout = LayoutNode::new_stack(1);
    layout.split_vertical(1, 2);

    let screen1 = Screen::new(10, 10, 100);
    let screen2 = Screen::new(10, 10, 100);
    let mut pane_screens = HashMap::new();
    pane_screens.insert(1, &screen1);
    pane_screens.insert(2, &screen2);

    let area = Rect {
        x: 0,
        y: 0,
        width: 20,
        height: 10,
    };
    let status = StatusInfo {
        mode: "COMMAND".to_string(),
        session_name: "test".to_string(),
        tabs: vec![("Tab 1".to_string(), true, TabActivity::Quiet)],
        layout_mode: "bsp".to_string(),
        search_info: None,
    };

    let (result, _hit_regions) = composite(
        &layout,
        &pane_screens,
        area,
        &BorderStyle::TmuxStyle,
        &status,
        20,
        11,
        0,
        1,
        None,
        &HashMap::new(),
        &CompositorTheme::default(),
    );

    // There should be vertical divider characters between the two panes.
    let pane_rects = compute_layout(&layout, area, 0);
    let (_, r1) = pane_rects[0];
    let divider_col = (r1.x + r1.width - 1) as usize;
    let has_divider = (0..10).any(|row| result[row][divider_col].c == '\u{2502}');
    assert!(has_divider, "expected vertical divider between panes");
}

// -----------------------------------------------------------------------
// Hit testing tests
// -----------------------------------------------------------------------

#[test]
fn test_hit_test_pane_interior() {
    let pane_rects = vec![
        (
            1,
            Rect {
                x: 0,
                y: 0,
                width: 40,
                height: 12,
            },
        ),
        (
            2,
            Rect {
                x: 40,
                y: 0,
                width: 40,
                height: 12,
            },
        ),
    ];
    let regions = HitRegions::default();

    assert_eq!(hit_test(5, 5, &regions, &pane_rects), ClickTarget::Pane(1));
    assert_eq!(hit_test(50, 5, &regions, &pane_rects), ClickTarget::Pane(2));
}

#[test]
fn test_hit_test_tab_label() {
    let pane_rects = vec![(
        1,
        Rect {
            x: 0,
            y: 0,
            width: 80,
            height: 23,
        },
    )];
    let regions = HitRegions {
        tab_regions: vec![
            TabRegion {
                x_start: 20,
                x_end: 30,
                y: 23,
                tab_index: 0,
            },
            TabRegion {
                x_start: 33,
                x_end: 43,
                y: 23,
                tab_index: 1,
            },
        ],
        stack_regions: vec![],
    };

    assert_eq!(hit_test(25, 23, &regions, &pane_rects), ClickTarget::Tab(0));
    assert_eq!(hit_test(35, 23, &regions, &pane_rects), ClickTarget::Tab(1));
}

#[test]
fn test_hit_test_stack_label() {
    let pane_rects = vec![(
        1,
        Rect {
            x: 0,
            y: 0,
            width: 40,
            height: 12,
        },
    )];
    let regions = HitRegions {
        tab_regions: vec![],
        stack_regions: vec![
            StackRegion {
                x_start: 2,
                x_end: 12,
                y: 0,
                pane_id: 1,
            },
            StackRegion {
                x_start: 15,
                x_end: 25,
                y: 0,
                pane_id: 2,
            },
        ],
    };

    assert_eq!(
        hit_test(5, 0, &regions, &pane_rects),
        ClickTarget::StackLabel(1)
    );
    assert_eq!(
        hit_test(20, 0, &regions, &pane_rects),
        ClickTarget::StackLabel(2)
    );
}

#[test]
fn test_hit_test_border_gap() {
    let pane_rects = vec![
        (
            1,
            Rect {
                x: 0,
                y: 0,
                width: 39,
                height: 12,
            },
        ),
        (
            2,
            Rect {
                x: 41,
                y: 0,
                width: 39,
                height: 12,
            },
        ),
    ];
    let regions = HitRegions::default();

    // Click in the gap between panes.
    assert_eq!(hit_test(40, 5, &regions, &pane_rects), ClickTarget::Nothing);
}

#[test]
fn test_hit_test_outside() {
    let pane_rects = vec![(
        1,
        Rect {
            x: 0,
            y: 0,
            width: 80,
            height: 23,
        },
    )];
    let regions = HitRegions::default();

    // Below all pane rects, no tab regions defined at this y.
    assert_eq!(hit_test(5, 24, &regions, &pane_rects), ClickTarget::Nothing);
}

#[test]
fn test_hit_test_priority_tab_over_pane() {
    // Tab label at the same row as the last pane row -- tab should win.
    let pane_rects = vec![(
        1,
        Rect {
            x: 0,
            y: 0,
            width: 80,
            height: 24,
        },
    )];
    let regions = HitRegions {
        tab_regions: vec![TabRegion {
            x_start: 10,
            x_end: 20,
            y: 23,
            tab_index: 0,
        }],
        stack_regions: vec![],
    };

    assert_eq!(hit_test(15, 23, &regions, &pane_rects), ClickTarget::Tab(0));
}

#[test]
fn test_hit_test_priority_stack_over_pane() {
    // Stack label at the top border of a pane -- stack should win.
    let pane_rects = vec![(
        1,
        Rect {
            x: 0,
            y: 0,
            width: 40,
            height: 12,
        },
    )];
    let regions = HitRegions {
        tab_regions: vec![],
        stack_regions: vec![StackRegion {
            x_start: 2,
            x_end: 12,
            y: 0,
            pane_id: 3,
        }],
    };

    assert_eq!(
        hit_test(5, 0, &regions, &pane_rects),
        ClickTarget::StackLabel(3)
    );
}

// -----------------------------------------------------------------------
// Coordinate mapping tests
// -----------------------------------------------------------------------

#[test]
fn test_screen_to_pane_local_mapping() {
    // Pane at (10, 5) with size 30x10.
    let pane_rect = Rect {
        x: 10,
        y: 5,
        width: 30,
        height: 10,
    };

    // Screen coordinate (15, 8) should map to pane-local (5, 3).
    let local_x = 15u16.saturating_sub(pane_rect.x);
    let local_y = 8u16.saturating_sub(pane_rect.y);
    assert_eq!(local_x, 5);
    assert_eq!(local_y, 3);
}

#[test]
fn test_screen_to_pane_local_clamped() {
    // Pane at (10, 5) with size 30x10.
    let pane_rect = Rect {
        x: 10,
        y: 5,
        width: 30,
        height: 10,
    };

    // Screen coordinate beyond pane bounds should clamp.
    let local_x = 50u16
        .saturating_sub(pane_rect.x)
        .min(pane_rect.width.saturating_sub(1));
    let local_y = 20u16
        .saturating_sub(pane_rect.y)
        .min(pane_rect.height.saturating_sub(1));
    assert_eq!(local_x, 29);
    assert_eq!(local_y, 9);
}

#[test]
fn test_screen_to_pane_local_at_origin() {
    // Pane at (0, 0) with size 80x24.
    let pane_rect = Rect {
        x: 0,
        y: 0,
        width: 80,
        height: 24,
    };

    let local_x = 10u16.saturating_sub(pane_rect.x);
    let local_y = 5u16.saturating_sub(pane_rect.y);
    assert_eq!(local_x, 10);
    assert_eq!(local_y, 5);
}

#[test]
fn test_hit_regions_populated_by_composite() {
    // Verify that compositing a layout with tabs produces tab regions.
    let layout = LayoutNode::new_stack(1);
    let screen = Screen::new(78, 23, 100);
    let mut pane_screens = HashMap::new();
    pane_screens.insert(1, &screen);

    let area = Rect {
        x: 0,
        y: 0,
        width: 80,
        height: 23,
    };
    let status = StatusInfo {
        mode: "NORMAL".to_string(),
        session_name: "test".to_string(),
        tabs: vec![
            ("Tab 1".to_string(), true, TabActivity::Quiet),
            ("Tab 2".to_string(), false, TabActivity::Quiet),
        ],
        layout_mode: "bsp".to_string(),
        search_info: None,
    };

    let (_result, hit_regions) = composite(
        &layout,
        &pane_screens,
        area,
        &BorderStyle::ZellijStyle,
        &status,
        80,
        24,
        0,
        1,
        None,
        &HashMap::new(),
        &CompositorTheme::default(),
    );

    // Should have 2 tab regions (one per tab in status bar).
    assert_eq!(hit_regions.tab_regions.len(), 2);
    assert_eq!(hit_regions.tab_regions[0].tab_index, 0);
    assert_eq!(hit_regions.tab_regions[1].tab_index, 1);
    // Tab regions should be on the last row.
    assert_eq!(hit_regions.tab_regions[0].y, 23);
}

/// A background tab with non-None activity renders a leading marker glyph
/// in an attention color, while the active tab stays clean.
#[test]
fn test_status_bar_renders_activity_marker() {
    let mut buffer = vec![vec![RenderCell::default(); 80]; 24];
    let theme = CompositorTheme::default();
    let mut hit_regions = HitRegions::default();
    let status = StatusInfo {
        mode: "NORMAL".to_string(),
        session_name: "test".to_string(),
        tabs: vec![
            ("Tab 1".to_string(), true, TabActivity::Quiet),
            ("Tab 2".to_string(), false, TabActivity::Activity),
            ("Tab 3".to_string(), false, TabActivity::Bell),
            ("Tab 4".to_string(), false, TabActivity::Silent),
        ],
        layout_mode: "bsp".to_string(),
        search_info: None,
    };

    draw_status_bar(&mut buffer, 80, 24, &status, &mut hit_regions, &theme);

    let bar: String = buffer[23].iter().map(|c| c.c).collect();
    // Each non-active tab shows its distinct marker glyph; the active tab
    // shows its plain name with no marker, distinguished by styling only.
    assert!(
        bar.contains('\u{25CF}'),
        "activity ● marker missing: {bar:?}"
    );
    assert!(bar.contains('!'), "bell ! marker missing: {bar:?}");
    assert!(bar.contains('\u{2713}'), "silent ✓ marker missing: {bar:?}");
    // The active tab renders its plain name (no `*` markers) and is set
    // apart purely by the active fg/bg/bold styling on its cells.
    assert!(bar.contains("Tab 1"), "active tab name missing: {bar:?}");
    let active_col = buffer[23]
        .iter()
        .position(|c| c.c == 'T' && c.bg == theme.tab_active_bg)
        .expect("active tab styled cell present");
    assert_eq!(buffer[23][active_col].fg, theme.tab_active_fg);
    assert!(
        buffer[23][active_col].bold,
        "active tab should be bold: {bar:?}"
    );

    // The Activity marker cell must carry the attention color from the
    // named `tab_activity_fg` role (default: bright yellow) rather than the
    // plain inactive-tab foreground.
    let marker_col = buffer[23]
        .iter()
        .position(|c| c.c == '\u{25CF}')
        .expect("activity marker present");
    assert_eq!(buffer[23][marker_col].fg, theme.tab_activity_fg);
    assert_ne!(buffer[23][marker_col].fg, theme.tab_inactive_fg);
}
