//! What can be seen on a frame, and what a click on it reaches.

use crate::blit::{highlighted, selected, view_row};
use crate::boxes::content_rect;
use crate::composed::{cursor_shown, scrolls, tab_shown};
use crate::compositor::{
    divided, frame, layout_drawn, offset_of, pair_divided, pane_drawn, panes_drawn, popup_drawn,
    row_divided, shares_stack, Scene,
};
use crate::config::{BorderStyle, CompositorTheme};
use crate::geometry::{
    covers, fits_screen, law_rects_do_not_overlap, law_rects_stay_inside, placed,
};
use crate::grid::clean;
use crate::hit::{
    label_under, on_label, on_tab, pane_under, rect_from, tab_under, under, ClickTarget,
    MouseSelection, StackRegion, TabRegion,
};
use crate::layout::{PaneId, Rect, Tree};
use crate::protocol::Look;
use crate::screen::{shown, Screen};
use crate::session::SessionView;
use crate::sizing::pane_area;
use crate::status_bar::{law_the_bar_stays_on_its_row, StatusInfo};
use crate::tab::TabView;
use vstd::prelude::*;

verus! {

// ---------------------------------------------------------------------------
// One pane
// ---------------------------------------------------------------------------

/// Drawing a pane changes nothing outside of its rectangle.
proof fn lemma_elsewhere(
    g: Seq<Seq<Look>>,
    id: PaneId,
    rect: Rect,
    screens: Map<PaneId, &Screen>,
    scene: Scene,
    style: BorderStyle,
    x: int,
    y: int,
)
    requires
        0 <= y < g.len(),
        0 <= x < g[y].len(),
        fits_screen(rect),
        !covers(rect, x, y),
    ensures
        ({
            let now = pane_drawn(g, id, rect, screens, scene, style);
            &&& now.len() == g.len()
            &&& now[y].len() == g[y].len()
            &&& now[y][x] == g[y][x]
        }),
{
}

/// Drawing keeps the shape of the grid.
proof fn lemma_shape(
    g: Seq<Seq<Look>>,
    id: PaneId,
    rect: Rect,
    screens: Map<PaneId, &Screen>,
    scene: Scene,
    style: BorderStyle,
    y: int,
)
    requires
        0 <= y < g.len(),
    ensures
        pane_drawn(g, id, rect, screens, scene, style).len() == g.len(),
        pane_drawn(g, id, rect, screens, scene, style)[y].len() == g[y].len(),
{
}

/// What is inside the content rectangle of a pane is its screen.
proof fn lemma_content(
    g: Seq<Seq<Look>>,
    id: PaneId,
    rect: Rect,
    screens: Map<PaneId, &Screen>,
    scene: Scene,
    style: BorderStyle,
    x: int,
    y: int,
)
    requires
        0 <= y < g.len(),
        0 <= x < g[y].len(),
        fits_screen(rect),
        rect.width > 0 && rect.height > 0,
        screens.contains_key(id),
        ({
            let inner = content_rect(style, rect, shares_stack(scene.tree, id));
            &&& covers(inner, x, y)
            &&& view_row(
                *screens[id],
                inner.height as int,
                offset_of(scene.scrolls, id),
                y - inner.y,
            ) matches Some(row) && x - inner.x < row.cells.len()
        }),
    ensures
        ({
            let inner = content_rect(style, rect, shares_stack(scene.tree, id));
            let row = view_row(
                *screens[id],
                inner.height as int,
                offset_of(scene.scrolls, id),
                y - inner.y,
            )->0;
            pane_drawn(g, id, rect, screens, scene, style)[y][x] == shown(
                row.cells@[x - inner.x],
            )
        }),
{
}

proof fn lemma_panes_shape(
    g: Seq<Seq<Look>>,
    rects: Seq<(PaneId, Rect)>,
    n: int,
    screens: Map<PaneId, &Screen>,
    scene: Scene,
    style: BorderStyle,
    y: int,
)
    requires
        0 <= n <= rects.len(),
        0 <= y < g.len(),
    ensures
        panes_drawn(g, rects, n, screens, scene, style).len() == g.len(),
        panes_drawn(g, rects, n, screens, scene, style)[y].len() == g[y].len(),
    decreases n,
{
    if n > 0 {
        lemma_panes_shape(g, rects, n - 1, screens, scene, style, y);
        lemma_shape(
            panes_drawn(g, rects, n - 1, screens, scene, style),
            rects[n - 1].0,
            rects[n - 1].1,
            screens,
            scene,
            style,
            y,
        );
    }
}

/// A cell of pane `i` looks as that pane alone makes it look.
proof fn lemma_only_its_own(
    g: Seq<Seq<Look>>,
    rects: Seq<(PaneId, Rect)>,
    n: int,
    screens: Map<PaneId, &Screen>,
    scene: Scene,
    style: BorderStyle,
    i: int,
    x: int,
    y: int,
)
    requires
        0 <= i < n <= rects.len(),
        0 <= y < g.len(),
        0 <= x < g[y].len(),
        covers(rects[i].1, x, y),
        forall|k: int| 0 <= k < rects.len() ==> fits_screen((#[trigger] rects[k]).1),
        forall|k: int|
            0 <= k < rects.len() && k != i ==> !covers((#[trigger] rects[k]).1, x, y),
    ensures
        panes_drawn(g, rects, n, screens, scene, style)[y][x] == pane_drawn(
            panes_drawn(g, rects, i, screens, scene, style),
            rects[i].0,
            rects[i].1,
            screens,
            scene,
            style,
        )[y][x],
    decreases n,
{
    if n > i + 1 {
        lemma_only_its_own(g, rects, n - 1, screens, scene, style, i, x, y);
        lemma_panes_shape(g, rects, n - 1, screens, scene, style, y);
        lemma_elsewhere(
            panes_drawn(g, rects, n - 1, screens, scene, style),
            rects[n - 1].0,
            rects[n - 1].1,
            screens,
            scene,
            style,
            x,
            y,
        );
    }
}

// ---------------------------------------------------------------------------
// Dividers
// ---------------------------------------------------------------------------

/// A divider lies in the last column or the last row of a pane.
proof fn lemma_no_divider_here(
    g: Seq<Seq<Look>>,
    a: Rect,
    b: Rect,
    theme: CompositorTheme,
    x: int,
    y: int,
)
    requires
        0 <= y < g.len(),
        0 <= x < g[y].len(),
        a.width > 0 && a.height > 0,
        !(covers(a, x, y) && (x == a.x + a.width - 1 || y == a.y + a.height - 1)),
    ensures
        pair_divided(g, a, b, theme).len() == g.len(),
        pair_divided(g, a, b, theme)[y].len() == g[y].len(),
        pair_divided(g, a, b, theme)[y][x] == g[y][x],
{
}

proof fn lemma_row_clear(
    g: Seq<Seq<Look>>,
    rects: Seq<(PaneId, Rect)>,
    i: int,
    j: int,
    theme: CompositorTheme,
    x: int,
    y: int,
)
    requires
        0 <= y < g.len(),
        0 <= x < g[y].len(),
        0 <= i < rects.len(),
        j <= rects.len(),
        rects[i].1.width > 0 && rects[i].1.height > 0,
        !(covers(rects[i].1, x, y) && (x == rects[i].1.x + rects[i].1.width - 1 || y
            == rects[i].1.y + rects[i].1.height - 1)),
    ensures
        row_divided(g, rects, i, j, theme).len() == g.len(),
        row_divided(g, rects, i, j, theme)[y].len() == g[y].len(),
        row_divided(g, rects, i, j, theme)[y][x] == g[y][x],
    decreases j - i,
{
    if j > i + 1 {
        lemma_row_clear(g, rects, i, j - 1, theme, x, y);
        lemma_no_divider_here(
            row_divided(g, rects, i, j - 1, theme),
            rects[i].1,
            rects[j - 1].1,
            theme,
            x,
            y,
        );
    }
}

proof fn lemma_all_clear(
    g: Seq<Seq<Look>>,
    rects: Seq<(PaneId, Rect)>,
    n: int,
    theme: CompositorTheme,
    x: int,
    y: int,
)
    requires
        0 <= y < g.len(),
        0 <= x < g[y].len(),
        n <= rects.len(),
        forall|k: int|
            0 <= k < rects.len() ==> (#[trigger] rects[k]).1.width > 0 && rects[k].1.height > 0
                && !(covers(rects[k].1, x, y) && (x == rects[k].1.x + rects[k].1.width - 1 || y
                == rects[k].1.y + rects[k].1.height - 1)),
    ensures
        divided(g, rects, n, theme).len() == g.len(),
        divided(g, rects, n, theme)[y].len() == g[y].len(),
        divided(g, rects, n, theme)[y][x] == g[y][x],
    decreases n,
{
    if n > 0 {
        lemma_all_clear(g, rects, n - 1, theme, x, y);
        lemma_row_clear(
            divided(g, rects, n - 1, theme),
            rects,
            n - 1,
            rects.len() as int,
            theme,
            x,
            y,
        );
    }
}

// ---------------------------------------------------------------------------
// The frame
// ---------------------------------------------------------------------------

/// On a frame without a selection and above the status bar, a cell of pane `i` that no
/// divider takes looks as that pane alone makes it look.
proof fn lemma_on_the_frame(
    rects: Seq<(PaneId, Rect)>,
    screens: Map<PaneId, &Screen>,
    scene: Scene,
    style: BorderStyle,
    info: StatusInfo,
    cols: u16,
    rows: u16,
    i: int,
    x: int,
    y: int,
)
    requires
        0 <= i < rects.len(),
        0 <= x < cols,
        0 <= y < rows - 1,
        covers(rects[i].1, x, y),
        forall|k: int|
            0 <= k < rects.len() ==> fits_screen((#[trigger] rects[k]).1) && rects[k].1.width > 0
                && rects[k].1.height > 0,
        forall|k: int|
            0 <= k < rects.len() && k != i ==> !covers((#[trigger] rects[k]).1, x, y),
        style is TmuxStyle ==> x < rects[i].1.x + rects[i].1.width - 1 && y < rects[i].1.y
            + rects[i].1.height - 1,
    ensures
        ({
            let base = clean(cols as int, rows as int);
            let under = panes_drawn(base, rects, i, screens, scene, style);
            &&& under.len() == rows && under[y].len() == cols
            &&& frame(rects, screens, scene, style, None, info, cols, rows)[y][x] == pane_drawn(
                under,
                rects[i].0,
                rects[i].1,
                screens,
                scene,
                style,
            )[y][x]
        }),
{
    let base = clean(cols as int, rows as int);
    let n = rects.len() as int;
    lemma_only_its_own(base, rects, n, screens, scene, style, i, x, y);
    lemma_panes_shape(base, rects, n, screens, scene, style, y);
    lemma_panes_shape(base, rects, i, screens, scene, style, y);
    let panes = panes_drawn(base, rects, n, screens, scene, style);
    if style is TmuxStyle {
        lemma_all_clear(panes, rects, n, scene.theme, x, y);
    }
    let marked = layout_drawn(base, rects, screens, scene, style);
    law_the_bar_stays_on_its_row(marked, rows - 1, cols as int, info, scene.theme, y);
}

/// The panes of an arrangement lie apart from each other on the screen.
proof fn lemma_lies_apart(t: Tree, cols: u16, rows: u16, i: int, x: int, y: int)
    requires
        rows > 0,
        0 <= i < placed(t, pane_area(cols, rows), 0).len(),
        covers(placed(t, pane_area(cols, rows), 0)[i].1, x, y),
    ensures
        0 <= x < cols,
        0 <= y < rows - 1,
        forall|k: int|
            0 <= k < placed(t, pane_area(cols, rows), 0).len() && k != i ==> !covers(
                (#[trigger] placed(t, pane_area(cols, rows), 0)[k]).1,
                x,
                y,
            ),
{
    let within = pane_area(cols, rows);
    let p = placed(t, within, 0);
    law_rects_stay_inside(t, within, 0, i, x, y);
    assert forall|k: int| 0 <= k < p.len() && k != i implies !covers(
        (#[trigger] p[k]).1,
        x,
        y,
    ) by {
        if k < i {
            law_rects_do_not_overlap(t, within, 0, k, i, x, y);
        } else {
            law_rects_do_not_overlap(t, within, 0, i, k, x, y);
        }
    }
}

/// Every pane of the shown tab is seen where it lies. Inside the border of its rectangle, or
/// below its tab bar where there is no border, column by column and row by row the cells are
/// those of its screen: of the live rows, or of the rows that end `offset` lines above the
/// last one where input goes to the pane and the view is scrolled back.
pub proof fn law_every_pane_is_seen_where_it_lies(
    s: SessionView,
    t: TabView,
    info: StatusInfo,
    cols: u16,
    rows: u16,
    screens: Map<PaneId, &Screen>,
    offset: usize,
    popup_rect: Rect,
    theme: CompositorTheme,
    i: int,
    col: int,
    row: int,
)
    requires
        ({
            let p = placed(t.shown(), pane_area(cols, rows), 0);
            &&& rows > 0
            &&& !s.popup_visible
            &&& 0 <= i < p.len()
            &&& screens.contains_key(p[i].0)
            &&& forall|k: int|
                0 <= k < p.len() ==> (#[trigger] p[k]).1.width > 0 && p[k].1.height > 0
            &&& {
                let (id, r) = p[i];
                let lines = screens[id].scrollback@ + screens[id].grid@;
                let back = if id == t.focused {
                    offset as int
                } else {
                    0
                };
                let top = if s.style is ZellijStyle || shares_stack(t.shown(), id) {
                    1int
                } else {
                    0
                };
                let height = r.height - (if s.style is ZellijStyle {
                    2
                } else {
                    top
                });
                let width = r.width - (if s.style is ZellijStyle {
                    2int
                } else {
                    0
                });
                let at = if back == 0 {
                    screens[id].scrollback@.len() + row
                } else {
                    lines.len() - back - height + row
                };
                &&& r.width >= 3 && r.height >= 3
                &&& 0 <= row < height && 0 <= col < width
                &&& s.style is TmuxStyle ==> row < height - 1 && col < width - 1
                &&& lines.len() <= usize::MAX
                &&& back > 0 ==> lines.len() >= back + height
                &&& at < lines.len()
                &&& col < lines[at].cells@.len()
            }
        }),
    ensures
        ({
            let f = tab_shown(
                s,
                t,
                info,
                cols,
                rows,
                screens,
                None,
                offset,
                popup_rect,
                theme,
            );
            let (id, r) = f.pane_rects[i];
            let lines = screens[id].scrollback@ + screens[id].grid@;
            let back = if id == t.focused {
                offset as int
            } else {
                0
            };
            let top = if s.style is ZellijStyle || shares_stack(t.shown(), id) {
                1int
            } else {
                0
            };
            let height = r.height - (if s.style is ZellijStyle {
                2
            } else {
                top
            });
            let at = if back == 0 {
                screens[id].scrollback@.len() + row
            } else {
                lines.len() - back - height + row
            };
            let left = if s.style is ZellijStyle {
                1int
            } else {
                0
            };
            f.cells[r.y + top + row][r.x + left + col] == shown(lines[at].cells@[col])
        }),
{
    let p = placed(t.shown(), pane_area(cols, rows), 0);
    let (id, r) = p[i];
    let scene = Scene {
        tree: t.shown(),
        focused: t.focused,
        mode: info.mode@,
        scrolls: scrolls(t.focused, offset),
        theme,
    };
    let top = if s.style is ZellijStyle || shares_stack(t.shown(), id) {
        1int
    } else {
        0
    };
    let left = if s.style is ZellijStyle {
        1int
    } else {
        0
    };
    let x = r.x + left + col;
    let y = r.y + top + row;
    lemma_rects_fit(t.shown(), cols, rows);
    lemma_lies_apart(t.shown(), cols, rows, i, x, y);
    lemma_on_the_frame(p, screens, scene, s.style, info, cols, rows, i, x, y);
    let base = clean(cols as int, rows as int);
    let below = panes_drawn(base, p, i, screens, scene, s.style);
    lemma_content(below, id, r, screens, scene, s.style, x, y);
}

/// Every rectangle of an arrangement ends within the coordinate range.
proof fn lemma_rects_fit(t: Tree, cols: u16, rows: u16)
    ensures
        forall|k: int|
            0 <= k < placed(t, pane_area(cols, rows), 0).len() && (#[trigger] placed(
                t,
                pane_area(cols, rows),
                0,
            )[k]).1.width > 0 && placed(t, pane_area(cols, rows), 0)[k].1.height > 0
                ==> fits_screen(placed(t, pane_area(cols, rows), 0)[k].1),
{
    let within = pane_area(cols, rows);
    let p = placed(t, within, 0);
    assert forall|k: int|
        0 <= k < p.len() && (#[trigger] p[k]).1.width > 0 && p[k].1.height > 0 implies fits_screen(
        p[k].1,
    ) by {
        let r = p[k].1;
        law_rects_stay_inside(t, within, 0, k, r.x + r.width - 1, r.y + r.height - 1);
    }
}

/// Around every pane with room for it there is a box with rounded corners, in the color of
/// the focus around the focused one. Its sides and its lower edge are the whole length; the
/// upper edge holds what is written into it.
pub proof fn law_every_pane_has_its_box(
    s: SessionView,
    t: TabView,
    info: StatusInfo,
    cols: u16,
    rows: u16,
    screens: Map<PaneId, &Screen>,
    offset: usize,
    popup_rect: Rect,
    theme: CompositorTheme,
    i: int,
    x: int,
    y: int,
)
    requires
        ({
            let p = placed(t.shown(), pane_area(cols, rows), 0);
            &&& rows > 0
            &&& !s.popup_visible
            &&& s.style is ZellijStyle
            &&& 0 <= i < p.len()
            &&& screens.contains_key(p[i].0)
            &&& forall|k: int|
                0 <= k < p.len() ==> (#[trigger] p[k]).1.width > 0 && p[k].1.height > 0
            &&& p[i].1.width >= 3 && p[i].1.height >= 3
            &&& p[i].1.x <= x < p[i].1.x + p[i].1.width
            &&& p[i].1.y <= y < p[i].1.y + p[i].1.height
        }),
    ensures
        ({
            let f = tab_shown(
                s,
                t,
                info,
                cols,
                rows,
                screens,
                None,
                offset,
                popup_rect,
                theme,
            );
            let (id, r) = f.pane_rects[i];
            let here = f.cells[y][x];
            let left = x == r.x;
            let right = x == r.x + r.width - 1;
            let upper = y == r.y;
            let lower = y == r.y + r.height - 1;
            &&& left && upper ==> here.c == '\u{256D}'
            &&& right && upper ==> here.c == '\u{256E}'
            &&& left && lower ==> here.c == '\u{2570}'
            &&& right && lower ==> here.c == '\u{256F}'
            &&& lower && !left && !right ==> here.c == '\u{2500}'
            &&& (left || right) && !upper && !lower ==> here.c == '\u{2502}'
            &&& left || right || lower ==> here.bg == theme.frame_bg && here.fg == (if id
                == t.focused {
                theme.frame_active_fg
            } else {
                theme.frame_fg
            })
        }),
{
    let p = placed(t.shown(), pane_area(cols, rows), 0);
    let (id, r) = p[i];
    let scene = Scene {
        tree: t.shown(),
        focused: t.focused,
        mode: info.mode@,
        scrolls: scrolls(t.focused, offset),
        theme,
    };
    lemma_rects_fit(t.shown(), cols, rows);
    lemma_lies_apart(t.shown(), cols, rows, i, x, y);
    lemma_on_the_frame(p, screens, scene, s.style, info, cols, rows, i, x, y);
}

// ---------------------------------------------------------------------------
// The popup
// ---------------------------------------------------------------------------

/// The popup covers what is behind it: inside its frame its own screen is seen, and nothing
/// outside of its rectangle changes.
pub proof fn law_the_popup_shows_its_own_screen(
    g: Seq<Seq<Look>>,
    rect: Rect,
    id: PaneId,
    screen: Screen,
    title: Seq<char>,
    mode: Seq<char>,
    theme: CompositorTheme,
    x: int,
    y: int,
)
    requires
        0 <= y < g.len(),
        0 <= x < g[y].len(),
        fits_screen(rect),
        rect.width >= 3 && rect.height >= 3,
    ensures
        ({
            let now = popup_drawn(g, rect, id, screen, title, mode, 0, None, theme);
            let row = y - rect.y - 1;
            let col = x - rect.x - 1;
            &&& !covers(rect, x, y) ==> now[y][x] == g[y][x]
            &&& 0 <= row < rect.height - 2 && 0 <= col < rect.width - 2 ==> {
                let on_screen = row < screen.grid@.len() && col < screen.grid@[row].cells@.len();
                &&& on_screen ==> now[y][x] == shown(screen.grid@[row].cells@[col])
                &&& !on_screen ==> now[y][x].c == ' '
            }
        }),
{
}

// ---------------------------------------------------------------------------
// The selection
// ---------------------------------------------------------------------------

/// The highlighted cells of a pane are those from the start of the selection to its end in
/// reading order, both ends included, counted from the first cell of the content. Their
/// colors change places, and no other cell changes.
pub proof fn law_the_selection_is_highlighted_in_reading_order(
    g: Seq<Seq<Look>>,
    sel: MouseSelection,
    rect: Rect,
    style: BorderStyle,
    x: int,
    y: int,
)
    requires
        0 <= y < g.len(),
        0 <= x < g[y].len(),
        rect.width >= 3 && rect.height >= 3,
        sel.start.1 < sel.end.1 || (sel.start.1 == sel.end.1 && sel.start.0 <= sel.end.0),
    ensures
        ({
            let edge = if style is ZellijStyle {
                1int
            } else {
                0
            };
            let col = x - rect.x - edge;
            let row = y - rect.y - edge;
            let after_start = row > sel.start.1 || (row == sel.start.1 && col >= sel.start.0);
            let before_end = row < sel.end.1 || (row == sel.end.1 && col <= sel.end.0);
            let now = highlighted(g, selected(sel, rect, style));
            &&& 0 <= col < rect.width - 2 * edge && after_start && before_end ==> now[y][x].fg
                == g[y][x].bg && now[y][x].bg == g[y][x].fg && now[y][x].c == g[y][x].c
            &&& !(after_start && before_end) || col < 0 ==> now[y][x] == g[y][x]
            &&& col >= rect.width - 2 * edge && row < sel.end.1 ==> now[y][x] == g[y][x]
        }),
{
}

// ---------------------------------------------------------------------------
// Clicks
// ---------------------------------------------------------------------------

proof fn lemma_tab_under(tabs: Seq<TabRegion>, x: u16, y: u16, i: int)
    requires
        0 <= i,
    ensures
        match tab_under(tabs, x, y, i) {
            Some(k) => exists|j: int|
                i <= j < tabs.len() && (#[trigger] tabs[j]).tab_index == k && tabs[j].y == y
                    && tabs[j].x_start <= x < tabs[j].x_end,
            None => forall|j: int|
                i <= j < tabs.len() ==> !((#[trigger] tabs[j]).y == y && tabs[j].x_start <= x
                    < tabs[j].x_end),
        },
    decreases tabs.len() - i,
{
    if i < tabs.len() && !on_tab(tabs[i], x, y) {
        lemma_tab_under(tabs, x, y, i + 1);
    }
}

proof fn lemma_label_under(labels: Seq<StackRegion>, x: u16, y: u16, i: int)
    requires
        0 <= i,
    ensures
        match label_under(labels, x, y, i) {
            Some(id) => exists|j: int|
                i <= j < labels.len() && (#[trigger] labels[j]).pane_id == id && labels[j].y == y
                    && labels[j].x_start <= x < labels[j].x_end,
            None => forall|j: int|
                i <= j < labels.len() ==> !((#[trigger] labels[j]).y == y && labels[j].x_start <= x
                    < labels[j].x_end),
        },
    decreases labels.len() - i,
{
    if i < labels.len() && !on_label(labels[i], x, y) {
        lemma_label_under(labels, x, y, i + 1);
    }
}

proof fn lemma_pane_under(rects: Seq<(PaneId, Rect)>, x: u16, y: u16, i: int)
    requires
        0 <= i,
    ensures
        match pane_under(rects, x, y, i) {
            Some(id) => exists|j: int|
                i <= j < rects.len() && (#[trigger] rects[j]).0 == id && rects[j].1.x <= x
                    < rects[j].1.x + rects[j].1.width && rects[j].1.y <= y < rects[j].1.y
                    + rects[j].1.height,
            None => forall|j: int|
                i <= j < rects.len() ==> !((#[trigger] rects[j]).1.x <= x < rects[j].1.x
                    + rects[j].1.width && rects[j].1.y <= y < rects[j].1.y + rects[j].1.height),
        },
    decreases rects.len() - i,
{
    if i < rects.len() && !covers(rects[i].1, x as int, y as int) {
        lemma_pane_under(rects, x, y, i + 1);
    }
}

/// A click reaches what is painted under it: a tab whose label is there; where there is
/// none, the pane of a stack label that is there; where there is none either, the pane whose
/// rectangle holds the place; and else nothing.
pub proof fn law_a_click_reaches_what_is_under_it(
    x: u16,
    y: u16,
    tabs: Seq<TabRegion>,
    labels: Seq<StackRegion>,
    rects: Seq<(PaneId, Rect)>,
)
    ensures
        ({
            let no_tab = forall|j: int|
                0 <= j < tabs.len() ==> !((#[trigger] tabs[j]).y == y && tabs[j].x_start <= x
                    < tabs[j].x_end);
            let no_label = forall|j: int|
                0 <= j < labels.len() ==> !((#[trigger] labels[j]).y == y && labels[j].x_start <= x
                    < labels[j].x_end);
            match under(x, y, tabs, labels, rects) {
                ClickTarget::Tab(k) => exists|j: int|
                    0 <= j < tabs.len() && (#[trigger] tabs[j]).tab_index == k && tabs[j].y == y
                        && tabs[j].x_start <= x < tabs[j].x_end,
                ClickTarget::StackLabel(id) => no_tab && exists|j: int|
                    0 <= j < labels.len() && (#[trigger] labels[j]).pane_id == id && labels[j].y
                        == y && labels[j].x_start <= x < labels[j].x_end,
                ClickTarget::Pane(id) => no_tab && no_label && exists|j: int|
                    0 <= j < rects.len() && (#[trigger] rects[j]).0 == id && rects[j].1.x <= x
                        < rects[j].1.x + rects[j].1.width && rects[j].1.y <= y < rects[j].1.y
                        + rects[j].1.height,
                ClickTarget::Nothing => no_tab && no_label && forall|j: int|
                    0 <= j < rects.len() ==> !((#[trigger] rects[j]).1.x <= x < rects[j].1.x
                        + rects[j].1.width && rects[j].1.y <= y < rects[j].1.y
                        + rects[j].1.height),
            }
        }),
{
    lemma_tab_under(tabs, x, y, 0);
    lemma_label_under(labels, x, y, 0);
    lemma_pane_under(rects, x, y, 0);
}

// ---------------------------------------------------------------------------
// The cursor
// ---------------------------------------------------------------------------

proof fn lemma_rect_from(rects: Seq<(PaneId, Rect)>, k: int, i: int)
    requires
        0 <= i <= k < rects.len(),
        forall|j: int| 0 <= j < rects.len() && j != k ==> (#[trigger] rects[j]).0 != rects[k].0,
    ensures
        rect_from(rects, rects[k].0, i) == Some(rects[k].1),
    decreases k - i,
{
    if i < k {
        lemma_rect_from(rects, k, i + 1);
    }
}

/// The cursor stands where the focused pane has it: in the content of the pane, as many
/// columns and rows from its first cell as on the pane's own screen. It is seen and shaped as
/// there.
pub proof fn law_the_cursor_is_in_the_focused_pane(
    s: SessionView,
    t: TabView,
    screens: Map<PaneId, &Screen>,
    rects: Seq<(PaneId, Rect)>,
    k: int,
)
    requires
        s.renaming is None,
        0 <= k < rects.len(),
        rects[k].0 == t.focused,
        forall|j: int| 0 <= j < rects.len() && j != k ==> (#[trigger] rects[j]).0 != t.focused,
        screens.contains_key(t.focused),
        fits_screen(rects[k].1),
        rects[k].1.width >= 3 && rects[k].1.height >= 3,
        screens[t.focused].cursor_x < rects[k].1.width - 2,
        screens[t.focused].cursor_y < rects[k].1.height - 2,
    ensures
        ({
            let r = rects[k].1;
            let screen = screens[t.focused];
            let left = if s.style is ZellijStyle {
                1int
            } else {
                0
            };
            let stacked = t.layout.stack_of(t.focused) matches Some(stack) && stack.height() > 1;
            let top = if s.style is ZellijStyle || stacked {
                1int
            } else {
                0
            };
            let c = cursor_shown(s, t, screens, rects, None);
            &&& c.x == r.x + left + screen.cursor_x
            &&& c.y == r.y + top + screen.cursor_y
            &&& c.visible == screen.cursor_visible
            &&& c.style == screen.cursor_style
        }),
{
    lemma_rect_from(rects, k, 0);
}

} // verus!
