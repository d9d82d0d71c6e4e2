//! Putting a pane's screen on the grid: the live view or a scrolled one, the
//! highlight of a selection, and snapshots of a single pane.

use crate::boxes::{fits_zellij_border, roomy};
use crate::config::BorderStyle;
use crate::geometry::covers;
use crate::grid::{
    at, blank_grid, clean, drawn, lemma_drawn_twice, lemma_nothing_drawn, lemma_same_grid,
    lemma_same_paint, looks, set_cell,
};
use crate::hit::{normalize_selection, ordered, MouseSelection};
use crate::layout::Rect;
use crate::protocol::{Look, RenderCell};
use crate::screen::{cell_to_render_cell, shown, sub0, Row, Screen};
use vstd::prelude::*;

verus! {

/// The row of the screen that row `row` of a view shows: a row of the grid in the
/// live view, a line counted from the scrollback in a scrolled one.
pub open spec fn view_row(screen: Screen, height: int, offset: usize, row: int) -> Option<Row> {
    if offset == 0 {
        if 0 <= row < screen.grid.len() {
            Some(screen.grid[row])
        } else {
            None
        }
    } else {
        screen.line(screen.view_top(offset as int, height) + row)
    }
}

/// The screen's content in the rectangle. Cells that the screen does not have are
/// left alone.
pub open spec fn screen_paint(screen: Screen, rect: Rect, offset: usize) -> spec_fn(
    int,
    int,
) -> Option<Look> {
    |x: int, y: int|
        if covers(rect, x, y) {
            match view_row(screen, rect.height as int, offset, y - rect.y) {
                Some(row) => if x - rect.x < row.cells.len() {
                    Some(shown(row.cells[x - rect.x]))
                } else {
                    None
                },
                None => None,
            }
        } else {
            None
        }
}

/// A paint up to column `col` of row `row`, in reading order.
pub open spec fn upto(
    paint: spec_fn(int, int) -> Option<Look>,
    row: int,
    col: int,
) -> spec_fn(int, int) -> Option<Look> {
    |x: int, y: int|
        if y < row || (y == row && x < col) {
            paint(x, y)
        } else {
            None
        }
}

/// The row of the screen that a view shows.
fn find_view_row(screen: &Screen, height: u16, offset: usize, row: u16) -> (r: Option<&Row>)
    requires
        row < height,
    ensures
        match r {
            Some(found) => view_row(*screen, height as int, offset, row as int) == Some(*found),
            None => view_row(*screen, height as int, offset, row as int) is None,
        },
{
    if offset == 0 {
        if (row as usize) < screen.grid.len() {
            Some(&screen.grid[row as usize])
        } else {
            None
        }
    } else {
        let top: usize = screen.first_line(offset, height as usize);
        screen.line_at(top + row as usize)
    }
}

/// Blit a screen's content into the grid at the given rectangle, scrolled back by
/// `scroll_offset` lines.
pub fn blit_screen(
    buffer: &mut Vec<Vec<RenderCell>>,
    screen: &Screen,
    rect: Rect,
    scroll_offset: usize,
)
    ensures
        looks(final(buffer)@) == drawn(
            looks(old(buffer)@),
            screen_paint(*screen, rect, scroll_offset),
        ),
{
    let ghost g = looks(buffer@);
    let ghost paint = screen_paint(*screen, rect, scroll_offset);
    let ghost x0 = rect.x as int;
    let ghost y0 = rect.y as int;
    let mut row: u16 = 0;
    proof {
        lemma_nothing_drawn(g, upto(paint, y0, x0));
    }
    while row < rect.height
        invariant
            row <= rect.height,
            x0 == rect.x,
            y0 == rect.y,
            paint == screen_paint(*screen, rect, scroll_offset),
            looks(buffer@) == drawn(g, upto(paint, y0 + row, x0)),
        decreases rect.height - row,
    {
        let found = find_view_row(screen, rect.height, scroll_offset, row);
        let y: usize = rect.y as usize + row as usize;
        match found {
            Some(line) => {
                let mut col: u16 = 0;
                while col < rect.width && (col as usize) < line.cells.len()
                    invariant
                        col <= rect.width,
                        col <= line.cells.len(),
                        row < rect.height,
                        x0 == rect.x,
                        y0 == rect.y,
                        y == y0 + row,
                        view_row(*screen, rect.height as int, scroll_offset, row as int) == Some(
                            *line,
                        ),
                        paint == screen_paint(*screen, rect, scroll_offset),
                        looks(buffer@) == drawn(g, upto(paint, y0 + row, x0 + col)),
                    decreases rect.width - col,
                {
                    let cell = cell_to_render_cell(&line.cells[col as usize]);
                    let ghost look = cell@;
                    set_cell(buffer, y, rect.x as usize + col as usize, cell);
                    proof {
                        assert(paint(x0 + col, y0 + row) == Some(look));
                        lemma_drawn_twice(
                            g,
                            upto(paint, y0 + row, x0 + col),
                            at(y as int, x0 + col, look),
                            upto(paint, y0 + row, x0 + col + 1),
                        );
                    }
                    col += 1;
                }
                proof {
                    lemma_same_paint(
                        g,
                        upto(paint, y0 + row, x0 + col),
                        upto(paint, y0 + row + 1, x0),
                    );
                }
            },
            None => {
                proof {
                    lemma_same_paint(
                        g,
                        upto(paint, y0 + row, x0),
                        upto(paint, y0 + row + 1, x0),
                    );
                }
            },
        }
        row += 1;
    }
    proof {
        lemma_same_paint(g, upto(paint, y0 + row, x0), paint);
    }
}

// ---------------------------------------------------------------------------
// Selection
// ---------------------------------------------------------------------------

/// A cell under a selection: foreground and background change places.
pub open spec fn lit(look: Look) -> Look {
    Look { fg: look.bg, bg: look.fg, ..look }
}

/// The grid with the cells of a region highlighted.
pub open spec fn highlighted(g: Seq<Seq<Look>>, region: spec_fn(int, int) -> bool) -> Seq<
    Seq<Look>,
> {
    Seq::new(
        g.len(),
        |y: int|
            Seq::new(
                g[y].len(),
                |x: int|
                    if region(x, y) {
                        lit(g[y][x])
                    } else {
                        g[y][x]
                    },
            ),
    )
}

/// Cells between a pane's edge and its content.
pub open spec fn inset(style: BorderStyle, rect: Rect) -> int {
    if style is ZellijStyle && roomy(rect.width, rect.height) {
        1
    } else {
        0
    }
}

/// The screen cells of a selection in the pane at `rect`: from the start to the end
/// in reading order, whole lines of the content in between.
pub open spec fn selected(sel: MouseSelection, rect: Rect, style: BorderStyle) -> spec_fn(
    int,
    int,
) -> bool {
    let off = inset(style, rect);
    let (start, end) = ordered(sel.start, sel.end);
    |x: int, y: int|
        {
            let col = x - rect.x - off;
            let row = y - rect.y - off;
            &&& start.1 <= row <= end.1
            &&& col >= (if row == start.1 {
                start.0 as int
            } else {
                0
            })
            &&& col <= (if row == end.1 {
                end.0 as int
            } else {
                sub0(sub0(rect.width as int, 2 * off), 1)
            })
        }
}

/// A region up to column `col` of row `row`, in reading order.
pub open spec fn region_upto(
    region: spec_fn(int, int) -> bool,
    row: int,
    col: int,
) -> spec_fn(int, int) -> bool {
    |x: int, y: int| (y < row || (y == row && x < col)) && region(x, y)
}

proof fn lemma_same_region(
    g: Seq<Seq<Look>>,
    a: spec_fn(int, int) -> bool,
    b: spec_fn(int, int) -> bool,
)
    requires
        forall|y: int, x: int|
            0 <= y < g.len() && 0 <= x < g[y].len() ==> (#[trigger] a(x, y)) == b(x, y),
    ensures
        highlighted(g, a) == highlighted(g, b),
{
    let p = highlighted(g, a);
    let q = highlighted(g, b);
    assert forall|y: int, x: int| 0 <= y < p.len() && 0 <= x < p[y].len() implies (
    #[trigger] p[y][x]) == q[y][x] by {
        assert(a(x, y) == b(x, y));
    }
    lemma_same_grid(p, q);
}

/// Highlight one cell, if there is one at that place.
fn light_cell(buffer: &mut Vec<Vec<RenderCell>>, row: usize, col: usize)
    ensures
        looks(final(buffer)@) == highlighted(
            looks(old(buffer)@),
            |x: int, y: int| x == col && y == row,
        ),
{
    let ghost g = looks(buffer@);
    let ghost here = |x: int, y: int| x == col && y == row;
    if row < buffer.len() && col < buffer[row].len() {
        let mut cell = buffer[row][col].clone();
        let ghost before = cell@;
        let fg = cell.fg;
        cell.fg = cell.bg;
        cell.bg = fg;
        let ghost look = cell@;
        set_cell(buffer, row, col, cell);
        proof {
            let p = looks(buffer@);
            let q = highlighted(g, here);
            assert(look == lit(before));
            assert(g[row as int][col as int] == before);
            assert forall|y: int, x: int| 0 <= y < p.len() && 0 <= x < p[y].len() implies (
            #[trigger] p[y][x]) == q[y][x] by {}
            lemma_same_grid(p, q);
        }
    } else {
        proof {
            let q = highlighted(g, here);
            assert forall|y: int, x: int| 0 <= y < g.len() && 0 <= x < g[y].len() implies (
            #[trigger] g[y][x]) == q[y][x] by {}
            lemma_same_grid(g, q);
        }
    }
}

/// Highlighting a region and then one more cell outside it.
proof fn lemma_light_more(
    g: Seq<Seq<Look>>,
    region: spec_fn(int, int) -> bool,
    row: int,
    col: int,
    more: spec_fn(int, int) -> bool,
)
    requires
        !region(col, row),
        forall|x: int, y: int| #[trigger] more(x, y) == (region(x, y) || (x == col && y == row)),
    ensures
        highlighted(highlighted(g, region), |x: int, y: int| x == col && y == row) == highlighted(
            g,
            more,
        ),
{
    let here = |x: int, y: int| x == col && y == row;
    let p = highlighted(highlighted(g, region), here);
    let q = highlighted(g, more);
    assert forall|y: int, x: int| 0 <= y < p.len() && 0 <= x < p[y].len() implies (
    #[trigger] p[y][x]) == q[y][x] by {
        assert(highlighted(g, region)[y].len() == g[y].len());
        assert(more(x, y) == (region(x, y) || (x == col && y == row)));
    }
    lemma_same_grid(p, q);
}

/// Highlight the cells of a selection. Its coordinates are relative to the content
/// of the pane at `pane_rect`.
pub fn apply_selection_highlight(
    buffer: &mut Vec<Vec<RenderCell>>,
    sel: &MouseSelection,
    pane_rect: &Rect,
    border_style: &BorderStyle,
)
    ensures
        looks(final(buffer)@) == highlighted(
            looks(old(buffer)@),
            selected(*sel, *pane_rect, *border_style),
        ),
{
    let ghost g = looks(buffer@);
    let ghost region = selected(*sel, *pane_rect, *border_style);
    let off: u16 = match border_style {
        BorderStyle::ZellijStyle => {
            if fits_zellij_border(pane_rect.width, pane_rect.height) {
                1
            } else {
                0
            }
        },
        BorderStyle::TmuxStyle => 0,
    };
    let (start, end) = normalize_selection(sel.start, sel.end);
    let last: u16 = pane_rect.width.saturating_sub(off * 2).saturating_sub(1);
    let y0: usize = pane_rect.y as usize + off as usize;
    let x0: usize = pane_rect.x as usize + off as usize;
    let mut row: u32 = start.1 as u32;
    proof {
        let none = region_upto(region, y0 + row, x0 as int);
        let q = highlighted(g, none);
        assert forall|y: int, x: int| 0 <= y < g.len() && 0 <= x < g[y].len() implies (
        #[trigger] g[y][x]) == q[y][x] by {}
        lemma_same_grid(g, q);
    }
    while row <= end.1 as u32
        invariant
            start.1 <= row <= end.1 + 1,
            start == ordered(sel.start, sel.end).0,
            end == ordered(sel.start, sel.end).1,
            off == inset(*border_style, *pane_rect),
            last == sub0(sub0(pane_rect.width as int, 2 * off), 1),
            y0 == pane_rect.y + off,
            x0 == pane_rect.x + off,
            y0 < 0x2_0000,
            x0 < 0x2_0000,
            region == selected(*sel, *pane_rect, *border_style),
            looks(buffer@) == highlighted(g, region_upto(region, y0 + row, x0 as int)),
        decreases end.1 + 1 - row,
    {
        let from: u32 = if row == start.1 as u32 {
            start.0 as u32
        } else {
            0
        };
        let to: u32 = if row == end.1 as u32 {
            end.0 as u32
        } else {
            last as u32
        };
        let mut col: u32 = from;
        proof {
            lemma_same_region(
                g,
                region_upto(region, y0 + row, x0 as int),
                region_upto(region, y0 + row, x0 + col),
            );
        }
        while col <= to
            invariant
                start.1 <= row <= end.1,
                start == ordered(sel.start, sel.end).0,
                end == ordered(sel.start, sel.end).1,
                off == inset(*border_style, *pane_rect),
                last == sub0(sub0(pane_rect.width as int, 2 * off), 1),
                y0 == pane_rect.y + off,
                x0 == pane_rect.x + off,
                y0 < 0x2_0000,
                x0 < 0x2_0000,
                region == selected(*sel, *pane_rect, *border_style),
                from == (if row == start.1 {
                    start.0 as int
                } else {
                    0
                }),
                to == (if row == end.1 {
                    end.0 as int
                } else {
                    last as int
                }),
                to <= 0xffff,
                from <= 0xffff,
                from <= col,
                col <= to + 1 || col == from,
                looks(buffer@) == highlighted(g, region_upto(region, y0 + row, x0 + col)),
            decreases to + 1 - col,
        {
            light_cell(buffer, y0 + row as usize, x0 + col as usize);
            proof {
                assert(region(x0 + col, y0 + row));
                lemma_light_more(
                    g,
                    region_upto(region, y0 + row, x0 + col),
                    y0 + row,
                    x0 + col,
                    region_upto(region, y0 + row, x0 + col + 1),
                );
            }
            col += 1;
        }
        proof {
            lemma_same_region(
                g,
                region_upto(region, y0 + row, x0 + col),
                region_upto(region, y0 + row + 1, x0 as int),
            );
        }
        row += 1;
    }
    proof {
        lemma_same_region(g, region_upto(region, y0 + row, x0 as int), region);
    }
}

// ---------------------------------------------------------------------------
// Snapshots of one pane
// ---------------------------------------------------------------------------

/// A single pane's rendered screen with the state that a viewer needs to place the
/// cursor and to encode input.
pub struct PaneRenderSnapshot {
    pub cols: u16,
    pub rows: u16,
    pub cells: Vec<Vec<RenderCell>>,
    /// Cursor position, moved into the pane.
    pub cursor_x: u16,
    pub cursor_y: u16,
    pub cursor_visible: bool,
    pub application_cursor_keys: bool,
}

/// The whole screen of a pane as a rectangle.
pub open spec fn own_rect(screen: Screen) -> Rect {
    Rect { x: 0, y: 0, width: screen.cols, height: screen.rows }
}

/// `a`, not above the last index below `n`; zero if there is none.
pub open spec fn within(a: u16, n: u16) -> int {
    if a < n {
        a as int
    } else {
        sub0(n as int, 1)
    }
}

/// Everything of a snapshot but its cells.
pub open spec fn snapshot_state(r: PaneRenderSnapshot, screen: Screen, offset: usize) -> bool {
    &&& r.cols == screen.cols
    &&& r.rows == screen.rows
    &&& r.cursor_x == within(screen.cursor_x, screen.cols)
    &&& r.cursor_y == within(screen.cursor_y, screen.rows)
    &&& r.cursor_visible == (screen.cursor_visible && offset == 0)
    &&& r.application_cursor_keys == screen.application_cursor_keys
}

/// The cells of a snapshot. A screen without columns or without rows has none.
pub open spec fn snapshot_cells(screen: Screen, offset: usize) -> Seq<Seq<Look>> {
    if screen.cols == 0 || screen.rows == 0 {
        Seq::empty()
    } else {
        drawn(
            clean(screen.cols as int, screen.rows as int),
            screen_paint(screen, own_rect(screen), offset),
        )
    }
}

/// A selection moved into a pane of the given size.
pub open spec fn clamp_selection(sel: MouseSelection, cols: u16, rows: u16) -> MouseSelection {
    MouseSelection {
        pane_id: sel.pane_id,
        start: (within(sel.start.0, cols) as u16, within(sel.start.1, rows) as u16),
        end: (within(sel.end.0, cols) as u16, within(sel.end.1, rows) as u16),
    }
}

fn keep_within(a: u16, n: u16) -> (r: u16)
    ensures
        r == within(a, n),
{
    if a < n {
        a
    } else {
        n.saturating_sub(1)
    }
}

/// Snapshot a single pane's live screen.
pub fn render_pane_snapshot(screen: &Screen) -> (r: PaneRenderSnapshot)
    ensures
        snapshot_state(r, *screen, 0),
        looks(r.cells@) == snapshot_cells(*screen, 0),
{
    render_pane_snapshot_at(screen, 0)
}

/// Snapshot a single pane's screen, scrolled back by `scroll_offset` lines. The
/// cursor is hidden in a scrolled view.
pub fn render_pane_snapshot_at(screen: &Screen, scroll_offset: usize) -> (r: PaneRenderSnapshot)
    ensures
        snapshot_state(r, *screen, scroll_offset),
        looks(r.cells@) == snapshot_cells(*screen, scroll_offset),
{
    let cols: u16 = screen.cols;
    let rows: u16 = screen.rows;
    let mut cells: Vec<Vec<RenderCell>> = Vec::new();
    if cols > 0 && rows > 0 {
        cells = blank_grid(cols, rows);
        blit_screen(
            &mut cells,
            screen,
            Rect { x: 0, y: 0, width: cols, height: rows },
            scroll_offset,
        );
    } else {
        assert(looks(cells@) =~= Seq::empty());
    }
    PaneRenderSnapshot {
        cols,
        rows,
        cells,
        cursor_x: keep_within(screen.cursor_x, cols),
        cursor_y: keep_within(screen.cursor_y, rows),
        cursor_visible: screen.cursor_visible && scroll_offset == 0,
        application_cursor_keys: screen.application_cursor_keys,
    }
}

/// Like [`render_pane_snapshot_at`], with a selection highlighted. The selection is
/// first moved into the pane, so that one made before the pane shrank highlights
/// what is still there.
pub fn render_pane_snapshot_selected(
    screen: &Screen,
    scroll_offset: usize,
    selection: Option<&MouseSelection>,
) -> (r: PaneRenderSnapshot)
    ensures
        snapshot_state(r, *screen, scroll_offset),
        looks(r.cells@) == (match selection {
            Some(sel) => if screen.cols > 0 && screen.rows > 0 {
                highlighted(
                    snapshot_cells(*screen, scroll_offset),
                    selected(
                        clamp_selection(*sel, screen.cols, screen.rows),
                        own_rect(*screen),
                        BorderStyle::TmuxStyle,
                    ),
                )
            } else {
                snapshot_cells(*screen, scroll_offset)
            },
            None => snapshot_cells(*screen, scroll_offset),
        }),
{
    let mut snap = render_pane_snapshot_at(screen, scroll_offset);
    match selection {
        Some(sel) => {
            if snap.cols > 0 && snap.rows > 0 {
                let clamped = MouseSelection {
                    pane_id: sel.pane_id,
                    start: (keep_within(sel.start.0, snap.cols), keep_within(sel.start.1, snap.rows)),
                    end: (keep_within(sel.end.0, snap.cols), keep_within(sel.end.1, snap.rows)),
                };
                let whole = Rect { x: 0, y: 0, width: snap.cols, height: snap.rows };
                apply_selection_highlight(
                    &mut snap.cells,
                    &clamped,
                    &whole,
                    &BorderStyle::TmuxStyle,
                );
            }
        },
        None => {},
    }
    snap
}

/// Highlighting the same cells twice gives the grid that was there before.
pub proof fn law_highlighting_undoes_itself(g: Seq<Seq<Look>>, region: spec_fn(int, int) -> bool)
    ensures
        highlighted(highlighted(g, region), region) == g,
{
    let p = highlighted(highlighted(g, region), region);
    let q = highlighted(g, region);
    assert forall|y: int, x: int| 0 <= y < p.len() && 0 <= x < p[y].len() implies (
    #[trigger] p[y][x]) == g[y][x] by {
        assert(q[y].len() == g[y].len());
        assert(q[y][x] == (if region(x, y) {
            lit(g[y][x])
        } else {
            g[y][x]
        }));
    }
    lemma_same_grid(p, g);
}

/// A selected cell is as legible as it was: its colors change places, and nothing else of
/// it changes.
pub proof fn law_a_selected_cell_is_inverted(look: Look)
    ensures
        lit(look).fg == look.bg,
        lit(look).bg == look.fg,
        lit(look) == (Look { fg: look.bg, bg: look.fg, ..look }),
        lit(look).fg == lit(look).bg <==> look.fg == look.bg,
{
}

} // verus!
