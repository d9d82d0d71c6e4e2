//! The screen of a pane as the renderer sees it: a grid of cells, the lines that
//! scrolled out of it, and the modes that the application has set.

use crate::protocol::{copy_chars, CellColor, Look, RenderCell};
use vstd::prelude::*;

verus! {

/// A color of a screen cell.
#[derive(Clone, Copy, Debug, PartialEq, Eq, Structural)]
pub enum Color {
    Default,
    Indexed(u8),
    Rgb(u8, u8, u8),
}

/// Attributes of a screen cell.
#[derive(Clone, Copy, Debug, PartialEq, Eq, Structural)]
pub struct Attrs {
    pub fg: Color,
    pub bg: Color,
    pub bold: bool,
    pub italic: bool,
    pub underline: bool,
    pub reverse: bool,
}

/// One cell of a screen.
#[derive(Debug)]
pub struct Cell {
    pub c: char,
    pub attrs: Attrs,
    /// Columns that the glyph takes; `0` for the cell behind a wide glyph.
    pub width: u8,
    /// Combining marks drawn over the glyph.
    pub combining: Vec<char>,
    /// Target of the hyperlink that the cell belongs to.
    pub hyperlink: Option<String>,
}

/// One row of a screen.
#[derive(Debug)]
pub struct Row {
    pub cells: Vec<Cell>,
    /// The line goes on in the next row because it did not fit.
    pub wrapped: bool,
}

/// The screen of a pane.
#[derive(Debug)]
pub struct Screen {
    /// The live rows, top to bottom.
    pub grid: Vec<Row>,
    /// The rows that scrolled off the top, oldest first.
    pub scrollback: Vec<Row>,
    /// How many rows have been dropped from the start of `scrollback`.
    pub lines_evicted: usize,
    pub scrollback_limit: usize,
    pub cols: u16,
    pub rows: u16,
    pub cursor_x: u16,
    pub cursor_y: u16,
    pub cursor_visible: bool,
    pub cursor_style: u8,
    pub application_cursor_keys: bool,
    pub alt_screen_active: bool,
    pub mouse_tracking: bool,
    pub mouse_sgr: bool,
    pub mouse_motion: bool,
}

/// `a`, not above the largest `usize`.
pub open spec fn fit(a: int) -> int {
    if a > usize::MAX {
        usize::MAX as int
    } else {
        a
    }
}

/// `a - b`, not below zero.
pub open spec fn sub0(a: int, b: int) -> int {
    if a < b {
        0
    } else {
        a - b
    }
}

/// The rendered color of a screen color.
pub open spec fn color_of(color: Color) -> CellColor {
    match color {
        Color::Default => CellColor::Default,
        Color::Indexed(i) => CellColor::Indexed(i),
        Color::Rgb(r, g, b) => CellColor::Rgb(r, g, b),
    }
}

/// `color`, or `other` where it is the default.
pub open spec fn or_color(color: CellColor, other: CellColor) -> CellColor {
    if color == CellColor::Default {
        other
    } else {
        color
    }
}

/// How a screen cell is rendered. Reverse video swaps the colors; a default color
/// then becomes an explicit one, so that the inversion shows.
pub open spec fn shown(cell: Cell) -> Look {
    Look {
        c: cell.c,
        fg: if cell.attrs.reverse {
            or_color(color_of(cell.attrs.bg), CellColor::Indexed(0))
        } else {
            color_of(cell.attrs.fg)
        },
        bg: if cell.attrs.reverse {
            or_color(color_of(cell.attrs.fg), CellColor::Indexed(7))
        } else {
            color_of(cell.attrs.bg)
        },
        bold: cell.attrs.bold,
        italic: cell.attrs.italic,
        underline: cell.attrs.underline,
        hyperlink: match cell.hyperlink {
            Some(s) => Some(s@),
            None => None,
        },
        width: cell.width,
        combining: cell.combining@,
    }
}

/// Convert a screen color to a rendered color.
pub fn convert_color(color: &Color) -> (r: CellColor)
    ensures
        r == color_of(*color),
{
    match color {
        Color::Default => CellColor::Default,
        Color::Indexed(idx) => CellColor::Indexed(*idx),
        Color::Rgb(r, g, b) => CellColor::Rgb(*r, *g, *b),
    }
}

/// Convert a screen cell to a rendered cell.
pub fn cell_to_render_cell(cell: &Cell) -> (r: RenderCell)
    ensures
        r@ == shown(*cell),
{
    let (fg, bg) = if cell.attrs.reverse {
        let mut fg = convert_color(&cell.attrs.bg);
        let mut bg = convert_color(&cell.attrs.fg);
        if fg == CellColor::Default {
            fg = CellColor::Indexed(0);
        }
        if bg == CellColor::Default {
            bg = CellColor::Indexed(7);
        }
        (fg, bg)
    } else {
        (convert_color(&cell.attrs.fg), convert_color(&cell.attrs.bg))
    };
    RenderCell {
        c: cell.c,
        fg,
        bg,
        bold: cell.attrs.bold,
        italic: cell.attrs.italic,
        underline: cell.attrs.underline,
        hyperlink: match &cell.hyperlink {
            Some(s) => Some(s.clone()),
            None => None,
        },
        width: cell.width,
        combining: copy_chars(&cell.combining),
    }
}

impl Cell {
    /// A cell that nothing was printed on.
    pub fn empty() -> (r: Cell)
        ensures
            shown(r) == crate::protocol::blank(),
            r.c == ' ',
            r.width == 1,
            r.combining@.len() == 0,
    {
        Cell {
            c: ' ',
            attrs: Attrs {
                fg: Color::Default,
                bg: Color::Default,
                bold: false,
                italic: false,
                underline: false,
                reverse: false,
            },
            width: 1,
            combining: Vec::new(),
            hyperlink: None,
        }
    }
}

impl Screen {
    /// The line at an index that counts the scrollback first, then the grid.
    pub open spec fn line(self, idx: int) -> Option<Row> {
        if 0 <= idx < self.scrollback.len() {
            Some(self.scrollback[idx])
        } else if self.scrollback.len() <= idx < self.scrollback.len() + self.grid.len() {
            Some(self.grid[idx - self.scrollback.len()])
        } else {
            None
        }
    }

    /// The number of lines, scrollback and grid together.
    pub open spec fn total(self) -> int {
        fit((self.scrollback.len() + self.grid.len()) as int)
    }

    /// How far back the view can be scrolled.
    pub open spec fn max_offset(self) -> int {
        sub0(self.total(), self.rows as int)
    }

    /// The index of the first line of a view of `height` rows, scrolled back by
    /// `offset` lines.
    pub open spec fn view_top(self, offset: int, height: int) -> int {
        sub0(sub0(self.total(), offset), height)
    }

    /// The number of a line that stays the same when older lines are dropped.
    pub open spec fn abs_row(self, offset: int, row: int) -> int {
        fit(fit(self.lines_evicted + self.view_top(offset, self.rows as int)) + row)
    }

    /// The row of the view that the line numbered `abs` is in; negative above it.
    pub open spec fn row_at(self, offset: int, abs: int) -> int {
        abs - self.lines_evicted - self.view_top(offset, self.rows as int)
    }

    /// A screen of blank cells.
    pub fn new(cols: u16, rows: u16, scrollback_limit: usize) -> (r: Screen)
        ensures
            r.cols == cols,
            r.rows == rows,
            r.grid.len() == rows,
            r.scrollback.len() == 0,
            r.lines_evicted == 0,
            r.scrollback_limit == scrollback_limit,
            !r.alt_screen_active && !r.mouse_tracking && !r.mouse_sgr && !r.mouse_motion,
            !r.application_cursor_keys,
            r.cursor_visible,
            r.cursor_x == 0 && r.cursor_y == 0 && r.cursor_style == 0,
            forall|y: int| 0 <= y < rows ==> (#[trigger] r.grid[y]).cells.len() == cols,
            forall|y: int, x: int|
                0 <= y < rows && 0 <= x < cols ==> shown(#[trigger] r.grid[y].cells[x])
                    == crate::protocol::blank(),
    {
        let mut grid: Vec<Row> = Vec::new();
        let mut y: u16 = 0;
        while y < rows
            invariant
                y <= rows,
                grid.len() == y,
                forall|i: int| 0 <= i < y ==> (#[trigger] grid[i]).cells.len() == cols,
                forall|i: int, x: int|
                    0 <= i < y && 0 <= x < cols ==> shown(#[trigger] grid[i].cells[x])
                        == crate::protocol::blank(),
            decreases rows - y,
        {
            let mut cells: Vec<Cell> = Vec::new();
            let mut x: u16 = 0;
            while x < cols
                invariant
                    x <= cols,
                    cells.len() == x,
                    forall|i: int|
                        0 <= i < x ==> shown(#[trigger] cells[i]) == crate::protocol::blank(),
                decreases cols - x,
            {
                cells.push(Cell::empty());
                x += 1;
            }
            grid.push(Row { cells, wrapped: false });
            y += 1;
        }
        Screen {
            grid,
            scrollback: Vec::new(),
            lines_evicted: 0,
            scrollback_limit,
            cols,
            rows,
            cursor_x: 0,
            cursor_y: 0,
            cursor_visible: true,
            cursor_style: 0,
            application_cursor_keys: false,
            alt_screen_active: false,
            mouse_tracking: false,
            mouse_sgr: false,
            mouse_motion: false,
        }
    }

    /// The number of lines, scrollback and grid together.
    pub fn total_lines(&self) -> (r: usize)
        ensures
            r == self.total(),
    {
        self.scrollback.len().saturating_add(self.grid.len())
    }

    /// The line at an index that counts the scrollback first, then the grid.
    pub fn line_at(&self, idx: usize) -> (r: Option<&Row>)
        ensures
            match r {
                Some(row) => self.line(idx as int) == Some(*row),
                None => self.line(idx as int) is None,
            },
    {
        if idx < self.scrollback.len() {
            Some(&self.scrollback[idx])
        } else {
            let below: usize = idx - self.scrollback.len();
            if below < self.grid.len() {
                Some(&self.grid[below])
            } else {
                None
            }
        }
    }

    /// How far back the view can be scrolled.
    pub fn max_scroll_offset(&self) -> (r: usize)
        ensures
            r == self.max_offset(),
    {
        self.total_lines().saturating_sub(self.rows as usize)
    }

    /// The index of the first line of a view of `height` rows, scrolled back by
    /// `offset` lines.
    pub fn first_line(&self, offset: usize, height: usize) -> (r: usize)
        ensures
            r == self.view_top(offset as int, height as int),
    {
        self.total_lines().saturating_sub(offset).saturating_sub(height)
    }

    /// The lasting number of the line that row `row` of the view shows.
    pub fn abs_of_row(&self, offset: usize, row: u16) -> (r: usize)
        ensures
            r == self.abs_row(offset as int, row as int),
    {
        let top: usize = self.first_line(offset, self.rows as usize);
        self.lines_evicted.saturating_add(top).saturating_add(row as usize)
    }

    /// The row of the view that the line numbered `abs` is in, moved into
    /// `0..height`; row `0` if there is no row at all.
    pub fn row_of_abs(&self, offset: usize, abs: usize, height: u16) -> (r: u16)
        ensures
            r == clamp_row(self.row_at(offset as int, abs as int), height),
    {
        let top: usize = self.first_line(offset, self.rows as usize);
        let row: i128 = abs as i128 - self.lines_evicted as i128 - top as i128;
        let last: u16 = height.saturating_sub(1);
        if row < 0 {
            0
        } else if row > last as i128 {
            last
        } else {
            row as u16
        }
    }

    /// The line numbered `abs`, if it is still held.
    pub fn line_of_abs(&self, abs: usize) -> (r: Option<&Row>)
        ensures
            match r {
                Some(row) => self.line(abs - self.lines_evicted) == Some(*row),
                None => self.line(abs - self.lines_evicted) is None,
            },
    {
        if abs < self.lines_evicted {
            None
        } else {
            self.line_at(abs - self.lines_evicted)
        }
    }
}

/// `row` moved into `0..height`; `0` if `height` is zero.
pub open spec fn clamp_row(row: int, height: u16) -> int {
    let last = sub0(height as int, 1);
    if row < 0 {
        0
    } else if row > last {
        last
    } else {
        row
    }
}

/// The lasting number of a line leads back to its row in the same view.
pub proof fn law_a_line_number_leads_back_to_its_row(s: Screen, offset: usize, row: u16)
    requires
        s.lines_evicted + s.total() + row <= usize::MAX,
    ensures
        s.row_at(offset as int, s.abs_row(offset as int, row as int)) == row,
{
}

/// Dropping old lines leaves the number of every line that is kept, and scrolling
/// the view by some lines moves its row by as many.
pub proof fn law_line_numbers_survive_eviction(
    before: Screen,
    after: Screen,
    dropped: int,
    idx: int,
)
    requires
        0 <= dropped <= before.scrollback.len(),
        after.lines_evicted == before.lines_evicted + dropped,
        after.scrollback@ == before.scrollback@.skip(dropped),
        after.grid@ == before.grid@,
        idx >= dropped,
    ensures
        after.line(before.lines_evicted + idx - after.lines_evicted) == before.line(idx),
{
}

/// Reverse video gives the foreground the color of the background and the background that
/// of the foreground. A default color stands for a light foreground on a dark background,
/// and becomes black and white where it changes sides.
pub proof fn law_reverse_video_swaps_the_colors(cell: Cell)
    requires
        cell.attrs.reverse,
    ensures
        match cell.attrs.bg {
            Color::Default => shown(cell).fg == CellColor::Indexed(0),
            Color::Indexed(i) => shown(cell).fg == CellColor::Indexed(i),
            Color::Rgb(r, g, b) => shown(cell).fg == CellColor::Rgb(r, g, b),
        },
        match cell.attrs.fg {
            Color::Default => shown(cell).bg == CellColor::Indexed(7),
            Color::Indexed(i) => shown(cell).bg == CellColor::Indexed(i),
            Color::Rgb(r, g, b) => shown(cell).bg == CellColor::Rgb(r, g, b),
        },
{
}

/// Without reverse video a cell is rendered in its own colors.
pub proof fn law_a_plain_cell_keeps_its_colors(cell: Cell)
    requires
        !cell.attrs.reverse,
    ensures
        match cell.attrs.fg {
            Color::Default => shown(cell).fg == CellColor::Default,
            Color::Indexed(i) => shown(cell).fg == CellColor::Indexed(i),
            Color::Rgb(r, g, b) => shown(cell).fg == CellColor::Rgb(r, g, b),
        },
        match cell.attrs.bg {
            Color::Default => shown(cell).bg == CellColor::Default,
            Color::Indexed(i) => shown(cell).bg == CellColor::Indexed(i),
            Color::Rgb(r, g, b) => shown(cell).bg == CellColor::Rgb(r, g, b),
        },
{
}

/// Reverse video can be seen: the cell does not look like the same cell without it, unless
/// its two colors are one and the same.
pub proof fn law_reverse_video_can_be_seen(plain: Cell, reversed: Cell)
    requires
        !plain.attrs.reverse,
        reversed.attrs.reverse,
        plain.attrs.fg == reversed.attrs.fg,
        plain.attrs.bg == reversed.attrs.bg,
        plain.attrs.fg != plain.attrs.bg || plain.attrs.fg is Default,
    ensures
        (shown(plain).fg, shown(plain).bg) != (shown(reversed).fg, shown(reversed).bg),
{
}

/// A rendered cell has the glyph of its cell, with its marks, its width, its link and its
/// attributes, whatever its colors are.
pub proof fn law_a_cell_keeps_its_glyph(cell: Cell)
    ensures
        shown(cell).c == cell.c,
        shown(cell).width == cell.width,
        shown(cell).combining == cell.combining@,
        shown(cell).bold == cell.attrs.bold,
        shown(cell).italic == cell.attrs.italic,
        shown(cell).underline == cell.attrs.underline,
        shown(cell).hyperlink is Some == cell.hyperlink is Some,
        cell.hyperlink matches Some(link) ==> shown(cell).hyperlink == Some(link@),
{
}

/// The lines of a screen are its history, the oldest first, and then its grid; their
/// lasting numbers go on from the number of those that were dropped.
pub proof fn law_lines_are_the_history_and_the_grid(s: Screen, idx: int)
    ensures
        s.line(idx) is Some == (0 <= idx < s.scrollback@.len() + s.grid@.len()),
        s.line(idx) matches Some(row) ==> row == (s.scrollback@ + s.grid@)[idx],
{
}

/// A view that is scrolled back ends above as many lines as it was scrolled back by, and
/// at the bound it begins with the oldest line.
pub proof fn law_scrolling_back_shows_older_lines(s: Screen, offset: int)
    requires
        s.scrollback@.len() + s.grid@.len() <= usize::MAX,
        s.rows <= s.scrollback@.len() + s.grid@.len(),
        0 <= offset <= s.max_offset(),
    ensures
        s.view_top(offset, s.rows as int) + s.rows + offset == s.scrollback@.len()
            + s.grid@.len(),
        s.view_top(s.max_offset(), s.rows as int) == 0,
{
}

} // verus!
