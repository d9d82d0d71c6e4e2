//! Borders: the glyphs that they are drawn from, boxes on the grid and in text,
//! and the room that a border leaves for content.

use crate::config::{BorderStyle, CompositorTheme};
use crate::grid::{
    area, at, drawn, lemma_drawn_twice, lemma_nothing_drawn, lemma_same_paint, looks, over,
    set_cell,
};
use crate::layout::Rect;
use crate::protocol::{glyph, CellColor, Look, RenderCell};
use crate::text::{chars_of, string_of};
use vstd::prelude::*;

verus! {

/// The rounded family, worn by everything that frames content.
pub const BOX_TOP_LEFT: char = '\u{256D}';

pub const BOX_TOP_RIGHT: char = '\u{256E}';

pub const BOX_BOTTOM_LEFT: char = '\u{2570}';

pub const BOX_BOTTOM_RIGHT: char = '\u{256F}';

pub const BOX_HORIZONTAL: char = '\u{2500}';

pub const BOX_VERTICAL: char = '\u{2502}';

/// Tee junctions, where a rule meets an edge.
pub const BOX_TEE_LEFT: char = '\u{251C}';

pub const BOX_TEE_RIGHT: char = '\u{2524}';

pub const BOX_TEE_DOWN: char = '\u{252C}';

pub const BOX_TEE_UP: char = '\u{2534}';

/// The sharp family, for a band across the screen.
pub const BOX_SHARP_TOP_LEFT: char = '\u{250C}';

pub const BOX_SHARP_TOP_RIGHT: char = '\u{2510}';

pub const BOX_SHARP_BOTTOM_LEFT: char = '\u{2514}';

pub const BOX_SHARP_BOTTOM_RIGHT: char = '\u{2518}';

// ---------------------------------------------------------------------------
// Edges as text
// ---------------------------------------------------------------------------

/// `n` rule glyphs.
pub open spec fn rule(n: nat) -> Seq<char> {
    Seq::new(n, |i: int| BOX_HORIZONTAL)
}

/// An edge of a box: `n` rule glyphs between two corners.
pub open spec fn edge(left: char, n: nat, right: char) -> Seq<char> {
    seq![left] + rule(n) + seq![right]
}

fn push_rule(line: &mut Vec<char>, n: usize)
    ensures
        final(line)@ == old(line)@ + rule(n as nat),
{
    let ghost before = line@;
    let mut i: usize = 0;
    assert(line@ =~= before + rule(0));
    while i < n
        invariant
            i <= n,
            line@ == before + rule(i as nat),
        decreases n - i,
    {
        line.push(BOX_HORIZONTAL);
        i += 1;
        assert(line@ =~= before + rule(i as nat));
    }
}

fn edge_line(left: char, n: usize, right: char) -> (r: String)
    ensures
        r@ == edge(left, n as nat, right),
{
    let mut line: Vec<char> = Vec::new();
    line.push(left);
    assert(line@ =~= seq![left]);
    push_rule(&mut line, n);
    line.push(right);
    assert(line@ =~= edge(left, n as nat, right));
    string_of(&line)
}

/// A box's top edge, with `inner_width` rule glyphs between the corners.
pub fn box_top_line(inner_width: usize) -> (r: String)
    ensures
        r@ == edge(BOX_TOP_LEFT, inner_width as nat, BOX_TOP_RIGHT),
{
    edge_line(BOX_TOP_LEFT, inner_width, BOX_TOP_RIGHT)
}

/// A box's top edge with a title set into it. The caller computes the two fills.
pub fn box_top_line_titled(left_fill: usize, title: &str, right_fill: usize) -> (r: String)
    ensures
        r@ == seq![BOX_TOP_LEFT] + rule(left_fill as nat) + title@ + rule(right_fill as nat)
            + seq![BOX_TOP_RIGHT],
{
    let mut line: Vec<char> = Vec::new();
    line.push(BOX_TOP_LEFT);
    assert(line@ =~= seq![BOX_TOP_LEFT]);
    push_rule(&mut line, left_fill);
    let mut name = chars_of(title);
    line.append(&mut name);
    push_rule(&mut line, right_fill);
    line.push(BOX_TOP_RIGHT);
    assert(line@ =~= seq![BOX_TOP_LEFT] + rule(left_fill as nat) + title@ + rule(
        right_fill as nat,
    ) + seq![BOX_TOP_RIGHT]);
    string_of(&line)
}

/// A box's bottom edge.
pub fn box_bottom_line(inner_width: usize) -> (r: String)
    ensures
        r@ == edge(BOX_BOTTOM_LEFT, inner_width as nat, BOX_BOTTOM_RIGHT),
{
    edge_line(BOX_BOTTOM_LEFT, inner_width, BOX_BOTTOM_RIGHT)
}

/// A horizontal rule across a box, joined into both side edges.
pub fn box_rule_line(inner_width: usize) -> (r: String)
    ensures
        r@ == edge(BOX_TEE_LEFT, inner_width as nat, BOX_TEE_RIGHT),
{
    edge_line(BOX_TEE_LEFT, inner_width, BOX_TEE_RIGHT)
}

/// The sharp family's top edge.
pub fn sharp_box_top_line(inner_width: usize) -> (r: String)
    ensures
        r@ == edge(BOX_SHARP_TOP_LEFT, inner_width as nat, BOX_SHARP_TOP_RIGHT),
{
    edge_line(BOX_SHARP_TOP_LEFT, inner_width, BOX_SHARP_TOP_RIGHT)
}

/// The sharp family's bottom edge.
pub fn sharp_box_bottom_line(inner_width: usize) -> (r: String)
    ensures
        r@ == edge(BOX_SHARP_BOTTOM_LEFT, inner_width as nat, BOX_SHARP_BOTTOM_RIGHT),
{
    edge_line(BOX_SHARP_BOTTOM_LEFT, inner_width, BOX_SHARP_BOTTOM_RIGHT)
}

// ---------------------------------------------------------------------------
// Boxes on the grid
// ---------------------------------------------------------------------------

/// The color of a border, by whether what it frames holds the focus.
pub open spec fn frame_color(theme: CompositorTheme, active: bool) -> CellColor {
    if active {
        theme.frame_active_fg
    } else {
        theme.frame_fg
    }
}

/// The foreground a border wears, given whether the thing it frames holds focus.
pub fn border_fg(theme: &CompositorTheme, active: bool) -> (r: CellColor)
    ensures
        r == frame_color(*theme, active),
{
    if active {
        theme.frame_active_fg
    } else {
        theme.frame_fg
    }
}

/// The look of a border cell.
pub open spec fn border_look(c: char, fg: CellColor, theme: CompositorTheme) -> Look {
    glyph(c, fg, theme.frame_bg, false)
}

/// One cell of a border, in `border_fg` on the theme's border background.
pub fn border_cell(c: char, border_fg: &CellColor, theme: &CompositorTheme) -> (r: RenderCell)
    ensures
        r@ == border_look(c, *border_fg, *theme),
{
    RenderCell::styled(c, *border_fg, theme.border_bg(), false)
}

/// The glyph of a box around `rect` at column `x`, row `y`. Where a box is so
/// narrow that its corners meet, the lower right one wins.
pub open spec fn box_glyph(rect: Rect, x: int, y: int) -> Option<char> {
    let right = rect.x + rect.width - 1;
    let bottom = rect.y + rect.height - 1;
    if rect.width == 0 || rect.height == 0 {
        None
    } else if x == right && y == bottom {
        Some(BOX_BOTTOM_RIGHT)
    } else if x == rect.x && y == bottom {
        Some(BOX_BOTTOM_LEFT)
    } else if x == right && y == rect.y {
        Some(BOX_TOP_RIGHT)
    } else if x == rect.x && y == rect.y {
        Some(BOX_TOP_LEFT)
    } else if (y == rect.y || y == bottom) && rect.x < x < right {
        Some(BOX_HORIZONTAL)
    } else if (x == rect.x || x == right) && rect.y < y < bottom {
        Some(BOX_VERTICAL)
    } else {
        None
    }
}

/// A box around `rect`, nothing inside.
pub open spec fn box_paint(rect: Rect, fg: CellColor, theme: CompositorTheme) -> spec_fn(
    int,
    int,
) -> Option<Look> {
    |x: int, y: int|
        match box_glyph(rect, x, y) {
            Some(c) => Some(border_look(c, fg, theme)),
            None => None,
        }
}

/// Draw a vertical divider run down `col`, rows `y0..y1`.
pub fn draw_divider_column(
    buffer: &mut Vec<Vec<RenderCell>>,
    col: usize,
    y0: usize,
    y1: usize,
    border_fg: &CellColor,
    theme: &CompositorTheme,
)
    ensures
        looks(final(buffer)@) == drawn(
            looks(old(buffer)@),
            area(
                col as int,
                col + 1,
                y0 as int,
                y1 as int,
                border_look(BOX_VERTICAL, *border_fg, *theme),
            ),
        ),
{
    let ghost g = looks(buffer@);
    let ghost look = border_look(BOX_VERTICAL, *border_fg, *theme);
    let mut row: usize = y0;
    proof {
        lemma_nothing_drawn(g, area(col as int, col + 1, y0 as int, row as int, look));
    }
    while row < y1
        invariant
            y0 <= row,
            y0 < row ==> row <= y1,
            look == border_look(BOX_VERTICAL, *border_fg, *theme),
            looks(buffer@) == drawn(g, area(col as int, col + 1, y0 as int, row as int, look)),
        decreases y1 - row,
    {
        set_cell(buffer, row, col, border_cell(BOX_VERTICAL, border_fg, theme));
        proof {
            lemma_drawn_twice(
                g,
                area(col as int, col + 1, y0 as int, row as int, look),
                at(row as int, col as int, look),
                area(col as int, col + 1, y0 as int, row + 1, look),
            );
        }
        row += 1;
    }
    proof {
        lemma_same_paint(
            g,
            area(col as int, col + 1, y0 as int, row as int, look),
            area(col as int, col + 1, y0 as int, y1 as int, look),
        );
    }
}

/// Draw a horizontal divider run along `row`, columns `x0..x1`.
pub fn draw_divider_row(
    buffer: &mut Vec<Vec<RenderCell>>,
    row: usize,
    x0: usize,
    x1: usize,
    border_fg: &CellColor,
    theme: &CompositorTheme,
)
    ensures
        looks(final(buffer)@) == drawn(
            looks(old(buffer)@),
            area(
                x0 as int,
                x1 as int,
                row as int,
                row + 1,
                border_look(BOX_HORIZONTAL, *border_fg, *theme),
            ),
        ),
{
    let ghost g = looks(buffer@);
    let ghost look = border_look(BOX_HORIZONTAL, *border_fg, *theme);
    let mut col: usize = x0;
    proof {
        lemma_nothing_drawn(g, area(x0 as int, col as int, row as int, row + 1, look));
    }
    while col < x1
        invariant
            x0 <= col,
            x0 < col ==> col <= x1,
            look == border_look(BOX_HORIZONTAL, *border_fg, *theme),
            looks(buffer@) == drawn(g, area(x0 as int, col as int, row as int, row + 1, look)),
        decreases x1 - col,
    {
        set_cell(buffer, row, col, border_cell(BOX_HORIZONTAL, border_fg, theme));
        proof {
            lemma_drawn_twice(
                g,
                area(x0 as int, col as int, row as int, row + 1, look),
                at(row as int, col as int, look),
                area(x0 as int, col + 1, row as int, row + 1, look),
            );
        }
        col += 1;
    }
    proof {
        lemma_same_paint(
            g,
            area(x0 as int, col as int, row as int, row + 1, look),
            area(x0 as int, x1 as int, row as int, row + 1, look),
        );
    }
}

/// Draw a box with rounded corners, nothing inside. The rectangle may be of any
/// size; what falls outside the grid is left out.
pub fn draw_zellij_box(
    buffer: &mut Vec<Vec<RenderCell>>,
    rect: Rect,
    border_fg: &CellColor,
    theme: &CompositorTheme,
)
    ensures
        looks(final(buffer)@) == drawn(looks(old(buffer)@), box_paint(rect, *border_fg, *theme)),
{
    let ghost g = looks(buffer@);
    if rect.width == 0 || rect.height == 0 {
        proof {
            lemma_nothing_drawn(g, box_paint(rect, *border_fg, *theme));
        }
        return;
    }
    let x: usize = rect.x as usize;
    let y: usize = rect.y as usize;
    let right: usize = x + rect.width as usize - 1;
    let bottom: usize = y + rect.height as usize - 1;
    set_cell(buffer, y, x, border_cell(BOX_TOP_LEFT, border_fg, theme));
    set_cell(buffer, y, right, border_cell(BOX_TOP_RIGHT, border_fg, theme));
    set_cell(buffer, bottom, x, border_cell(BOX_BOTTOM_LEFT, border_fg, theme));
    set_cell(buffer, bottom, right, border_cell(BOX_BOTTOM_RIGHT, border_fg, theme));
    draw_divider_row(buffer, y, x + 1, right, border_fg, theme);
    draw_divider_row(buffer, bottom, x + 1, right, border_fg, theme);
    draw_divider_column(buffer, x, y + 1, bottom, border_fg, theme);
    draw_divider_column(buffer, right, y + 1, bottom, border_fg, theme);
    proof {
        let fg = *border_fg;
        let t = *theme;
        let h = border_look(BOX_HORIZONTAL, fg, t);
        let v = border_look(BOX_VERTICAL, fg, t);
        let p1 = at(y as int, x as int, border_look(BOX_TOP_LEFT, fg, t));
        let q2 = at(y as int, right as int, border_look(BOX_TOP_RIGHT, fg, t));
        let q3 = at(bottom as int, x as int, border_look(BOX_BOTTOM_LEFT, fg, t));
        let q4 = at(bottom as int, right as int, border_look(BOX_BOTTOM_RIGHT, fg, t));
        let q5 = area(x + 1, right as int, y as int, y + 1, h);
        let q6 = area(x + 1, right as int, bottom as int, bottom + 1, h);
        let q7 = area(x as int, x + 1, y + 1, bottom as int, v);
        let q8 = area(right as int, right + 1, y + 1, bottom as int, v);
        let p2 = over(p1, q2);
        let p3 = over(p2, q3);
        let p4 = over(p3, q4);
        let p5 = over(p4, q5);
        let p6 = over(p5, q6);
        let p7 = over(p6, q7);
        let p8 = over(p7, q8);
        lemma_drawn_twice(g, p1, q2, p2);
        lemma_drawn_twice(g, p2, q3, p3);
        lemma_drawn_twice(g, p3, q4, p4);
        lemma_drawn_twice(g, p4, q5, p5);
        lemma_drawn_twice(g, p5, q6, p6);
        lemma_drawn_twice(g, p6, q7, p7);
        lemma_drawn_twice(g, p7, q8, p8);
        lemma_same_paint(g, p8, box_paint(rect, fg, t));
    }
}

// ---------------------------------------------------------------------------
// What a border leaves for content
// ---------------------------------------------------------------------------

/// Room for a box and at least one cell in it.
pub open spec fn roomy(width: u16, height: u16) -> bool {
    width >= 3 && height >= 3
}

/// Whether a rectangle is big enough to carry a box border plus at least one
/// interior row and column.
pub fn fits_zellij_border(width: u16, height: u16) -> (r: bool)
    ensures
        r == roomy(width, height),
{
    width >= 3 && height >= 3
}

/// What is left of a pane's rectangle for its content: inside the box, or below
/// the tab bar of a stack; all of it where there is no room for either.
pub open spec fn content_rect(style: BorderStyle, rect: Rect, multi_stack: bool) -> Rect {
    if style is ZellijStyle && roomy(rect.width, rect.height) {
        Rect {
            x: (rect.x + 1) as u16,
            y: (rect.y + 1) as u16,
            width: (rect.width - 2) as u16,
            height: (rect.height - 2) as u16,
        }
    } else if style is TmuxStyle && multi_stack && rect.height >= 2 {
        Rect {
            x: rect.x,
            y: (rect.y + 1) as u16,
            width: rect.width,
            height: (rect.height - 1) as u16,
        }
    } else {
        rect
    }
}

/// The content area of a pane, once the border style has taken its share.
pub fn pane_content_rect(style: &BorderStyle, rect: Rect, multi_stack: bool) -> (r: Rect)
    requires
        style is ZellijStyle && roomy(rect.width, rect.height) ==> rect.x < u16::MAX && rect.y
            < u16::MAX,
        style is TmuxStyle && multi_stack && rect.height >= 2 ==> rect.y < u16::MAX,
    ensures
        r == content_rect(*style, rect, multi_stack),
{
    match style {
        BorderStyle::ZellijStyle => {
            if fits_zellij_border(rect.width, rect.height) {
                Rect {
                    x: rect.x + 1,
                    y: rect.y + 1,
                    width: rect.width - 2,
                    height: rect.height - 2,
                }
            } else {
                rect
            }
        },
        BorderStyle::TmuxStyle => {
            if multi_stack && rect.height >= 2 {
                Rect {
                    x: rect.x,
                    y: rect.y + 1,
                    width: rect.width,
                    height: rect.height - 1,
                }
            } else {
                rect
            }
        },
    }
}

// ---------------------------------------------------------------------------
// Laws
// ---------------------------------------------------------------------------

/// The text edges and the box on the grid show the same glyphs: the top and bottom
/// row of a box read as the top and bottom edge of the same inner width.
pub proof fn law_text_and_grid_show_the_same_box(rect: Rect, i: int)
    requires
        rect.width >= 2,
        rect.height >= 2,
        0 <= i < rect.width,
    ensures
        box_glyph(rect, rect.x + i, rect.y as int) == Some(
            edge(BOX_TOP_LEFT, (rect.width - 2) as nat, BOX_TOP_RIGHT)[i],
        ),
        box_glyph(rect, rect.x + i, rect.y + rect.height - 1) == Some(
            edge(BOX_BOTTOM_LEFT, (rect.width - 2) as nat, BOX_BOTTOM_RIGHT)[i],
        ),
{
}

/// A box touches no cell outside its rectangle and none of the content area that
/// it leaves.
pub proof fn law_a_box_leaves_its_content_alone(rect: Rect, x: int, y: int)
    requires
        box_glyph(rect, x, y) is Some,
        rect.x < u16::MAX && rect.y < u16::MAX,
    ensures
        crate::geometry::covers(rect, x, y),
        roomy(rect.width, rect.height) ==> !crate::geometry::covers(
            content_rect(BorderStyle::ZellijStyle, rect, false),
            x,
            y,
        ),
{
}

/// The content area lies inside the pane, whatever the style.
pub proof fn law_content_lies_inside_the_pane(
    style: BorderStyle,
    rect: Rect,
    multi_stack: bool,
    x: int,
    y: int,
)
    requires
        rect.x < u16::MAX && rect.y < u16::MAX,
        crate::geometry::covers(content_rect(style, rect, multi_stack), x, y),
    ensures
        crate::geometry::covers(rect, x, y),
{
}

} // verus!
