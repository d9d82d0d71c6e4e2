//! What is on a client's screen besides the panes' own content: dividers, marks and labels;
//! and how a change of it is sent.

use crate::blit::{
    clamp_selection, highlighted, selected, snapshot_state, PaneRenderSnapshot,
};
use crate::composed::{describes, uncovered};
use crate::compositor::{
    border_drawn, boxed_regions, divided, flat_regions, pair_divided, row_divided,
    selection_drawn, stack_shown,
};
use crate::config::{BorderStyle, CompositorTheme};
use crate::bar_laws::law_a_name_is_centered;
use crate::geometry::{covers, fits_screen};
use crate::hit::{rect_from, MouseSelection, StackRegion};
use crate::layout::{PaneId, Rect, Tree};
use crate::protocol::{glyph, CellColor, Look, PaneRect};
use crate::render::{
    own_message, pane_row, placed_info, top_of_view, FrameInfo, MessageView,
};
use crate::screen::Screen;
use crate::session::SessionView;
use crate::status_bar::StatusInfo;
use crate::tab_strip::{
    bar_strip_colors, border_strip_colors, centered, law_a_tab_is_painted_where_it_is_clicked,
    law_tabs_are_in_order_and_within_the_strip, lemma_strip, shown_names, strip, strip_cells,
    tab_bar, top_content, StackView,
};
use crate::text::decimal;
use vstd::prelude::*;

verus! {

// ---------------------------------------------------------------------------
// Dividers
// ---------------------------------------------------------------------------

/// The cell is the last one of `a` before `b`, which is right beside it.
pub open spec fn beside(a: Rect, b: Rect, x: int, y: int) -> bool {
    &&& a.x + a.width == b.x && b.x > 0 && x == b.x - 1
    &&& a.y <= y < a.y + a.height && b.y <= y < b.y + b.height
}

/// The cell is the last one of `a` above `b`, which is right below it.
pub open spec fn below(a: Rect, b: Rect, x: int, y: int) -> bool {
    &&& a.y + a.height == b.y && b.y > 0 && y == b.y - 1
    &&& a.x <= x < a.x + a.width && b.x <= x < b.x + b.width
}

/// A divider in the colors of a frame without the focus.
pub open spec fn divider(look: Look, c: char, theme: CompositorTheme) -> bool {
    look.c == c && look.fg == theme.frame_fg && look.bg == theme.frame_bg
}

/// Between two panes that touch side by side there is an upright line, and between two that
/// touch one above the other a level one, along all of the edge that they share. Nothing else
/// is drawn between them.
pub proof fn law_a_divider_parts_two_panes(
    g: Seq<Seq<Look>>,
    a: Rect,
    b: Rect,
    theme: CompositorTheme,
    x: int,
    y: int,
)
    requires
        0 <= y < g.len(),
        0 <= x < g[y].len(),
    ensures
        ({
            let now = pair_divided(g, a, b, theme);
            &&& now.len() == g.len() && now[y].len() == g[y].len()
            &&& below(a, b, x, y) ==> divider(now[y][x], '\u{2500}', theme)
            &&& beside(a, b, x, y) && !below(a, b, x, y) ==> divider(now[y][x], '\u{2502}', theme)
            &&& !beside(a, b, x, y) && !below(a, b, x, y) ==> now[y][x] == g[y][x]
        }),
{
}

/// A cell that a divider is drawn in.
pub open spec fn parted(
    rects: Seq<(PaneId, Rect)>,
    i: int,
    j: int,
    x: int,
    y: int,
) -> bool {
    beside(rects[i].1, rects[j].1, x, y) || below(rects[i].1, rects[j].1, x, y)
}

spec fn is_divider(look: Look, theme: CompositorTheme) -> bool {
    divider(look, '\u{2500}', theme) || divider(look, '\u{2502}', theme)
}

proof fn lemma_row_divided(
    g: Seq<Seq<Look>>,
    rects: Seq<(PaneId, Rect)>,
    i: int,
    j: int,
    theme: CompositorTheme,
    x: int,
    y: int,
)
    requires
        0 <= y < g.len(),
        0 <= x < g[y].len(),
        0 <= i,
        j <= rects.len(),
    ensures
        ({
            let now = row_divided(g, rects, i, j, theme);
            let drawn = exists|k: int| i < k < j && #[trigger] parted(rects, i, k, x, y);
            &&& now.len() == g.len() && now[y].len() == g[y].len()
            &&& drawn ==> is_divider(now[y][x], theme)
            &&& !drawn ==> now[y][x] == g[y][x]
        }),
    decreases j - i,
{
    if j > i + 1 {
        lemma_row_divided(g, rects, i, j - 1, theme, x, y);
        law_a_divider_parts_two_panes(
            row_divided(g, rects, i, j - 1, theme),
            rects[i].1,
            rects[j - 1].1,
            theme,
            x,
            y,
        );
        let old_row = row_divided(g, rects, i, j - 1, theme);
        let now = row_divided(g, rects, i, j, theme);
        assert(now == pair_divided(old_row, rects[i].1, rects[j - 1].1, theme));
        let drawn = exists|k: int| i < k < j && #[trigger] parted(rects, i, k, x, y);
        if parted(rects, i, j - 1, x, y) {
            assert(drawn);
            assert(is_divider(now[y][x], theme));
        } else {
            assert(now[y][x] == old_row[y][x]);
            if drawn {
                let k = choose|k: int| i < k < j && #[trigger] parted(rects, i, k, x, y);
                assert(i < k < j - 1 && parted(rects, i, k, x, y));
                assert(is_divider(old_row[y][x], theme));
            } else {
                assert forall|k: int| i < k < j - 1 implies !#[trigger] parted(
                    rects,
                    i,
                    k,
                    x,
                    y,
                ) by {}
                assert(now[y][x] == g[y][x]);
            }
        }
    }
}

proof fn lemma_divided(
    g: Seq<Seq<Look>>,
    rects: Seq<(PaneId, Rect)>,
    n: int,
    theme: CompositorTheme,
    x: int,
    y: int,
)
    requires
        0 <= y < g.len(),
        0 <= x < g[y].len(),
        0 <= n <= rects.len(),
    ensures
        ({
            let now = divided(g, rects, n, theme);
            let drawn = exists|i: int, k: int|
                0 <= i < n && i < k < rects.len() && #[trigger] parted(rects, i, k, x, y);
            &&& now.len() == g.len() && now[y].len() == g[y].len()
            &&& drawn ==> is_divider(now[y][x], theme)
            &&& !drawn ==> now[y][x] == g[y][x]
        }),
    decreases n,
{
    if n > 0 {
        lemma_divided(g, rects, n - 1, theme, x, y);
        lemma_row_divided(
            divided(g, rects, n - 1, theme),
            rects,
            n - 1,
            rects.len() as int,
            theme,
            x,
            y,
        );
        let last = exists|k: int|
            n - 1 < k < rects.len() && #[trigger] parted(rects, n - 1, k, x, y);
        let drawn = exists|i: int, k: int|
            0 <= i < n && i < k < rects.len() && #[trigger] parted(rects, i, k, x, y);
        let before = exists|i: int, k: int|
            0 <= i < n - 1 && i < k < rects.len() && #[trigger] parted(rects, i, k, x, y);
        if drawn && !last {
            let (i, k) = choose|i: int, k: int|
                0 <= i < n && i < k < rects.len() && #[trigger] parted(rects, i, k, x, y);
            assert(i < n - 1);
            assert(before);
        }
    }
}

/// Without boxes, a line stands in the last cell of a pane before another one that follows it
/// in the order, beside or below it; no other cell is drawn over.
pub proof fn law_dividers_stand_between_panes(
    g: Seq<Seq<Look>>,
    rects: Seq<(PaneId, Rect)>,
    theme: CompositorTheme,
    x: int,
    y: int,
)
    requires
        0 <= y < g.len(),
        0 <= x < g[y].len(),
    ensures
        ({
            let now = divided(g, rects, rects.len() as int, theme);
            let drawn = exists|i: int, k: int|
                0 <= i < k < rects.len() && #[trigger] parted(rects, i, k, x, y);
            &&& drawn ==> divider(now[y][x], '\u{2500}', theme) || divider(
                now[y][x],
                '\u{2502}',
                theme,
            )
            &&& !drawn ==> now[y][x] == g[y][x]
        }),
{
    lemma_divided(g, rects, rects.len() as int, theme, x, y);
    let n = rects.len() as int;
    if exists|i: int, k: int| 0 <= i < k < n && #[trigger] parted(rects, i, k, x, y) {
        let (i, k) = choose|i: int, k: int| 0 <= i < k < n && #[trigger] parted(rects, i, k, x, y);
        assert(0 <= i < n && i < k < n && parted(rects, i, k, x, y));
    }
}

// ---------------------------------------------------------------------------
// Marks
// ---------------------------------------------------------------------------

/// In the status bar each tab has its name, in order, and the shown one is told from the
/// others; a Z behind its name says that it is zoomed.
pub proof fn law_a_zoomed_tab_is_marked(
    info: StatusInfo,
    s: SessionView,
    name: Seq<char>,
    mode: Seq<char>,
    search: Option<(usize, usize)>,
    i: int,
)
    requires
        describes(info, s, name, mode, search),
        0 <= i < s.tabs.len(),
    ensures
        info.tabs@.len() == s.tabs.len(),
        i != s.active ==> info.tabs@[i].0@ == s.tabs[i].name && !info.tabs@[i].1,
        i == s.active ==> info.tabs@[i].1,
        i == s.active && s.tabs[i].zoomed is None ==> info.tabs@[i].0@ == s.tabs[i].name,
        i == s.active && s.tabs[i].zoomed is Some ==> info.tabs@[i].0@ == s.tabs[i].name + seq![
            ' ',
            'Z',
        ],
        info.session_name@ == name,
        info.mode@ == mode,
{
    assert(info.tabs@[i] == info.tabs@[i]);
    assert(s.tabs[i].name.push(' ').push('Z') =~= s.tabs[i].name + seq![' ', 'Z']);
}

/// The selection is drawn in the pane that it belongs to and nowhere else; where that pane is
/// not seen, nothing is.
pub proof fn law_a_selection_is_drawn_in_its_pane(
    g: Seq<Seq<Look>>,
    rects: Seq<(PaneId, Rect)>,
    sel: MouseSelection,
    style: BorderStyle,
    k: int,
)
    requires
        0 <= k <= rects.len(),
        k < rects.len() ==> rects[k].0 == sel.pane_id,
        forall|j: int| 0 <= j < rects.len() && j != k ==> (#[trigger] rects[j]).0 != sel.pane_id,
    ensures
        selection_drawn(g, rects, None, style) == g,
        k < rects.len() ==> selection_drawn(g, rects, Some(sel), style) == highlighted(
            g,
            selected(sel, rects[k].1, style),
        ),
        k == rects.len() ==> selection_drawn(g, rects, Some(sel), style) == g,
{
    lemma_rect_from(rects, sel.pane_id, k, 0);
}

proof fn lemma_rect_from(rects: Seq<(PaneId, Rect)>, id: PaneId, k: int, i: int)
    requires
        0 <= i <= k <= rects.len(),
        k < rects.len() ==> rects[k].0 == id,
        forall|j: int| 0 <= j < rects.len() && j != k ==> (#[trigger] rects[j]).0 != id,
    ensures
        k < rects.len() ==> rect_from(rects, id, i) == Some(rects[k].1),
        k == rects.len() ==> rect_from(rects, id, i) is None,
    decreases rects.len() - i,
{
    if i < k {
        assert(rects[i].0 != id);
        lemma_rect_from(rects, id, k, i + 1);
    }
}

/// A selection is kept on the pane: each end is moved to the last column or row where it was
/// beyond it, and stays where it is otherwise.
pub proof fn law_a_selection_is_kept_on_the_pane(sel: MouseSelection, cols: u16, rows: u16)
    requires
        cols > 0,
        rows > 0,
    ensures
        ({
            let now = clamp_selection(sel, cols, rows);
            &&& now.pane_id == sel.pane_id
            &&& sel.start.0 < cols ==> now.start.0 == sel.start.0
            &&& sel.start.0 >= cols ==> now.start.0 == cols - 1
            &&& sel.start.1 < rows ==> now.start.1 == sel.start.1
            &&& sel.start.1 >= rows ==> now.start.1 == rows - 1
            &&& sel.end.0 < cols ==> now.end.0 == sel.end.0
            &&& sel.end.0 >= cols ==> now.end.0 == cols - 1
            &&& sel.end.1 < rows ==> now.end.1 == sel.end.1
            &&& sel.end.1 >= rows ==> now.end.1 == rows - 1
        }),
{
}

/// Two columns of cells share a cell.
pub open spec fn meets(r: StackRegion, p: Rect) -> bool {
    exists|x: int| r.x_start <= x < r.x_end && #[trigger] covers(p, x, r.y as int)
}

/// While the popup is up, just the labels of which no cell lies under it can be clicked.
pub proof fn law_labels_beside_the_popup_can_be_clicked(
    regions: Seq<StackRegion>,
    p: Rect,
    n: int,
    r: StackRegion,
)
    requires
        0 <= n <= regions.len(),
        p.width > 0,
        forall|i: int| 0 <= i < n ==> (#[trigger] regions[i]).x_start < regions[i].x_end,
    ensures
        uncovered(regions, p, n).contains(r) <==> !meets(r, p) && exists|i: int|
            0 <= i < n && #[trigger] regions[i] == r,
    decreases n,
{
    if n > 0 {
        law_labels_beside_the_popup_can_be_clicked(regions, p, n - 1, r);
        let before = uncovered(regions, p, n - 1);
        let now = uncovered(regions, p, n);
        let q = regions[n - 1];
        assert(crate::composed::covered(q, p) == meets(q, p)) by {
            if crate::composed::covered(q, p) {
                let x = if q.x_start > p.x {
                    q.x_start as int
                } else {
                    p.x as int
                };
                assert(covers(p, x, q.y as int));
            }
        }
        if before.contains(r) {
            let j = choose|j: int| 0 <= j < before.len() && before[j] == r;
            assert(now[j] == r);
            let i = choose|i: int| 0 <= i < n - 1 && #[trigger] regions[i] == r;
            assert(0 <= i < n && regions[i] == r);
        }
        if now.contains(r) && !before.contains(r) {
            let j = choose|j: int| 0 <= j < now.len() && now[j] == r;
            if j < before.len() {
                assert(before[j] == r);
            }
            assert(r == q);
        }
        if !meets(r, p) && r == q {
            assert(now[before.len() as int] == r);
        }
    }
}

/// A label of a stack in its tab bar, which is the first row of the pane, is clicked where it
/// is read: its cells show the name of the pane, centered between the ends of the place.
#[verifier::spinoff_prover]
#[verifier::rlimit(40)]
pub proof fn law_a_label_in_the_bar_is_clicked_where_it_is_read(
    g: Seq<Seq<Look>>,
    id: PaneId,
    rect: Rect,
    screens: Map<PaneId, &Screen>,
    t: Tree,
    mode: Seq<char>,
    theme: CompositorTheme,
    stack: StackView,
    j: int,
    k: int,
)
    requires
        fits_screen(rect),
        rect.y < g.len(),
        rect.x + rect.width <= g[rect.y as int].len(),
        stack_shown(t, id) == Some(stack),
        stack.names.len() <= stack.ids.len() <= usize::MAX,
        0 <= j < flat_regions(id, rect, screens, t).len(),
        0 <= k < flat_regions(id, rect, screens, t)[j].x_end - flat_regions(
            id,
            rect,
            screens,
            t,
        )[j].x_start,
    ensures
        ({
            let r = flat_regions(id, rect, screens, t)[j];
            let now = tab_bar(g, rect, stack_shown(t, id), mode, theme);
            let name = if stack.names[j].len() > 0 {
                stack.names[j]
            } else {
                decimal(stack.ids[j] as nat)
            };
            &&& r.pane_id == stack.ids[j]
            &&& r.y == rect.y
            &&& rect.x <= r.x_start < r.x_end <= rect.x + rect.width
            &&& now[r.y as int][r.x_start + k].c == centered(name, r.x_end - r.x_start)[k]
        }),
{
    let r = flat_regions(id, rect, screens, t)[j];
    let now = tab_bar(g, rect, stack_shown(t, id), mode, theme);
    let width = rect.width as int;
    let shown = shown_names(stack.names, stack.ids);
    let colors = bar_strip_colors(mode, theme);
    let style = BorderStyle::TmuxStyle;
    let places = strip(shown, width, style);
    lemma_strip(shown, width, style);
    law_tabs_are_in_order_and_within_the_strip(shown, width, style, j);
    assert(r.x_start == rect.x + places[j].start && r.x_end == rect.x + places[j].end);
    law_a_tab_is_painted_where_it_is_clicked(shown, width, style, stack.active, colors, j, k);
    law_a_name_is_centered(shown[j], places[j].end - places[j].start, k);
    let cells = strip_cells(places, places.len() as int, shown, stack.active, colors);
    let at = places[j].start + k;
    assert(cells[at].c == centered(shown[j], places[j].end - places[j].start)[k]);
    assert(now[rect.y as int][rect.x + at] == cells[at]);
}

/// A label of a stack in the upper edge of its box is clicked where it is read: its cells
/// show the name of the pane, centered between the ends of the place.
#[verifier::spinoff_prover]
#[verifier::rlimit(40)]
pub proof fn law_a_label_in_the_edge_is_clicked_where_it_is_read(
    g: Seq<Seq<Look>>,
    id: PaneId,
    rect: Rect,
    screens: Map<PaneId, &Screen>,
    t: Tree,
    fg: CellColor,
    mode: Seq<char>,
    theme: CompositorTheme,
    stack: StackView,
    j: int,
    k: int,
)
    requires
        fits_screen(rect),
        rect.y < g.len(),
        rect.x + rect.width <= g[rect.y as int].len(),
        stack_shown(t, id) == Some(stack),
        stack.names.len() <= stack.ids.len() <= usize::MAX,
        0 <= j < boxed_regions(id, rect, screens, t).len(),
        0 <= k < boxed_regions(id, rect, screens, t)[j].x_end - boxed_regions(
            id,
            rect,
            screens,
            t,
        )[j].x_start,
    ensures
        ({
            let r = boxed_regions(id, rect, screens, t)[j];
            let now = border_drawn(g, rect, fg, stack_shown(t, id), mode, theme);
            let name = if stack.names[j].len() > 0 {
                stack.names[j]
            } else {
                decimal(stack.ids[j] as nat)
            };
            &&& r.pane_id == stack.ids[j]
            &&& r.y == rect.y
            &&& rect.x <= r.x_start < r.x_end <= rect.x + rect.width
            &&& now[r.y as int][r.x_start + k].c == centered(name, r.x_end - r.x_start)[k]
        }),
{
    let r = boxed_regions(id, rect, screens, t)[j];
    let now = border_drawn(g, rect, fg, stack_shown(t, id), mode, theme);
    let width = rect.width - 2;
    let shown = shown_names(stack.names, stack.ids);
    let colors = border_strip_colors(fg, mode, theme);
    let style = BorderStyle::ZellijStyle;
    let places = strip(shown, width, style);
    lemma_strip(shown, width, style);
    law_tabs_are_in_order_and_within_the_strip(shown, width, style, j);
    assert(r.x_start == rect.x + 1 + places[j].start && r.x_end == rect.x + 1 + places[j].end);
    law_a_tab_is_painted_where_it_is_clicked(shown, width, style, stack.active, colors, j, k);
    law_a_name_is_centered(shown[j], places[j].end - places[j].start, k);
    let cells = strip_cells(places, places.len() as int, shown, stack.active, colors);
    let at = places[j].start + k;
    assert(cells[at].c == centered(shown[j], places[j].end - places[j].start)[k]);
    let top = top_content(Some(stack), fg, mode, width, theme);
    assert(top == cells.push(glyph(' ', fg, theme.frame_bg, false)));
    assert(top[at] == cells[at]);
    assert(now[rect.y as int][rect.x + 1 + at] == top[at]);
}

/// A pane that is seen on its own shows its cursor in the live view only, where its screen
/// has it.
pub proof fn law_a_scrolled_pane_has_no_cursor(r: PaneRenderSnapshot, screen: Screen, offset: usize)
    requires
        snapshot_state(r, screen, offset),
        screen.cursor_x < screen.cols,
        screen.cursor_y < screen.rows,
    ensures
        offset > 0 ==> !r.cursor_visible,
        offset == 0 ==> r.cursor_visible == screen.cursor_visible,
        r.cursor_x == screen.cursor_x && r.cursor_y == screen.cursor_y,
        r.cols == screen.cols && r.rows == screen.rows,
{
}

// ---------------------------------------------------------------------------
// What is sent
// ---------------------------------------------------------------------------

/// The first line that is seen: in the live view the first one behind the history; in a
/// scrolled view so that what is seen ends as many lines above the last one as it is scrolled
/// back, as far as there are lines.
pub proof fn law_the_view_ends_where_it_is_scrolled_to(
    screen: Screen,
    offset: usize,
    rect: PaneRect,
    rows: u16,
)
    requires
        screen.scrollback@.len() + screen.grid@.len() <= usize::MAX,
    ensures
        offset == 0 ==> top_of_view(Some(screen), offset, Some(rect), rows)
            == screen.scrollback@.len(),
        offset > 0 && screen.scrollback@.len() + screen.grid@.len() >= offset + rect.height ==>
            top_of_view(Some(screen), offset, Some(rect), rows) + rect.height + offset
            == screen.scrollback@.len() + screen.grid@.len(),
        offset > 0 && screen.scrollback@.len() + screen.grid@.len() < offset + rect.height ==>
            top_of_view(Some(screen), offset, Some(rect), rows) == 0,
        top_of_view(None, offset, Some(rect), rows) == 0,
{
}

/// A scrolled view has no cursor, and the client is told how far it is scrolled.
pub proof fn law_a_scrolled_view_has_no_cursor(
    info: FrameInfo,
    offset: usize,
    screen: Option<Screen>,
    rows: u16,
)
    ensures
        ({
            let now = placed_info(info, offset, screen, rows);
            &&& now.scroll_offset == offset
            &&& offset > 0 ==> !now.cursor_visible
            &&& offset == 0 ==> now.cursor_visible == info.cursor_visible
            &&& now.focused_pane_rect == info.focused_pane_rect
        }),
{
}

/// A scrolled view is sent as a shift by as many rows as it was scrolled, up to ten, with
/// the rows that it brought into view: the uppermost ones of the pane where it was scrolled
/// back, the lowest ones where it was scrolled forth. A view that was or is live, one that
/// did not move or moved by more than ten rows or by all of its rows, and one that reached
/// the first line is sent whole.
pub proof fn law_a_shift_brings_the_new_rows(
    cells: Seq<Seq<Look>>,
    info: FrameInfo,
    prev: usize,
    rect: PaneRect,
)
    requires
        info.focused_pane_rect == Some(rect),
    ensures
        ({
            let back = info.scroll_offset - prev;
            let moved = if back < 0 {
                -back
            } else {
                back
            };
            let whole = info.scroll_offset == 0 || prev == 0 || back == 0 || moved > 10 || moved
                >= rect.height || info.viewport_top == 0;
            match own_message(cells, info, prev) {
                MessageView::ScrollRender { pane, delta, new_rows, info: told } => {
                    &&& !whole
                    &&& pane == rect && delta == back && told == info
                    &&& new_rows.len() == moved
                    &&& forall|i: int|
                        0 <= i < moved ==> #[trigger] new_rows[i] == pane_row(
                            cells,
                            rect,
                            if back > 0 {
                                rect.y + i
                            } else {
                                rect.y + rect.height - moved + i
                            },
                        )
                },
                MessageView::FullRender { cells: sent, info: told } => whole && sent == cells
                    && told == info,
                _ => false,
            }
        }),
{
}

} // verus!
