//! Painting on a grid of cells.
//!
//! What a drawing operation does is described by a paint: a function that gives,
//! for a column and a row, the look of the cell there, or `None` where the cell is
//! left alone.

use crate::protocol::{glyph, CellColor, Look, RenderCell};
use vstd::prelude::*;

verus! {

/// The looks of a row of cells.
pub open spec fn row_looks(r: Seq<RenderCell>) -> Seq<Look> {
    Seq::new(r.len(), |x: int| r[x]@)
}

/// The looks of a grid of cells, by row and column.
pub open spec fn looks(b: Seq<Vec<RenderCell>>) -> Seq<Seq<Look>> {
    Seq::new(b.len(), |y: int| row_looks(b[y]@))
}

/// `over` where it says something, else `under`.
pub open spec fn layered(over: Option<Look>, under: Look) -> Look {
    match over {
        Some(l) => l,
        None => under,
    }
}

/// The grid with a paint applied. Nothing outside the grid is touched.
pub open spec fn drawn(
    g: Seq<Seq<Look>>,
    paint: spec_fn(int, int) -> Option<Look>,
) -> Seq<Seq<Look>> {
    Seq::new(g.len(), |y: int| Seq::new(g[y].len(), |x: int| layered(paint(x, y), g[y][x])))
}

/// A single cell.
pub open spec fn at(row: int, col: int, look: Look) -> spec_fn(int, int) -> Option<Look> {
    |x: int, y: int|
        if x == col && y == row {
            Some(look)
        } else {
            None
        }
}

/// Cells side by side from column `col` of row `row`, none at or beyond column
/// `end`.
pub open spec fn run(row: int, col: int, end: int, cells: Seq<Look>) -> spec_fn(
    int,
    int,
) -> Option<Look> {
    |x: int, y: int|
        if y == row && col <= x < col + cells.len() && x < end {
            Some(cells[x - col])
        } else {
            None
        }
}

/// The same look in every cell of a rectangle `x0..x1` by `y0..y1`.
pub open spec fn area(x0: int, x1: int, y0: int, y1: int, look: Look) -> spec_fn(
    int,
    int,
) -> Option<Look> {
    |x: int, y: int|
        if x0 <= x < x1 && y0 <= y < y1 {
            Some(look)
        } else {
            None
        }
}

/// The cells of a text in the given colors.
pub open spec fn lettering(chars: Seq<char>, fg: CellColor, bg: CellColor, bold: bool) -> Seq<
    Look,
> {
    Seq::new(chars.len(), |i: int| glyph(chars[i], fg, bg, bold))
}

/// A paint with another one on top of it.
pub open spec fn over(
    under: spec_fn(int, int) -> Option<Look>,
    top: spec_fn(int, int) -> Option<Look>,
) -> spec_fn(int, int) -> Option<Look> {
    |x: int, y: int|
        match top(x, y) {
            Some(l) => Some(l),
            None => under(x, y),
        }
}

/// Two grids of the same shape with equal cells are equal.
pub proof fn lemma_same_grid(a: Seq<Seq<Look>>, b: Seq<Seq<Look>>)
    requires
        a.len() == b.len(),
        forall|y: int| 0 <= y < a.len() ==> (#[trigger] a[y]).len() == b[y].len(),
        forall|y: int, x: int|
            0 <= y < a.len() && 0 <= x < a[y].len() ==> (#[trigger] a[y][x]) == b[y][x],
    ensures
        a == b,
{
    assert forall|y: int| 0 <= y < a.len() implies a[y] == b[y] by {
        assert(a[y].len() == b[y].len());
        assert forall|x: int| 0 <= x < a[y].len() implies a[y][x] == b[y][x] by {
            assert(a[y][x] == b[y][x]);
        }
        assert(a[y] =~= b[y]);
    }
    assert(a =~= b);
}

/// Two paints one after the other are one paint, `both`.
pub proof fn lemma_drawn_twice(
    g: Seq<Seq<Look>>,
    first: spec_fn(int, int) -> Option<Look>,
    second: spec_fn(int, int) -> Option<Look>,
    both: spec_fn(int, int) -> Option<Look>,
)
    requires
        forall|x: int, y: int| #[trigger]
            both(x, y) == match second(x, y) {
                Some(l) => Some(l),
                None => first(x, y),
            },
    ensures
        drawn(drawn(g, first), second) == drawn(g, both),
{
    let a = drawn(drawn(g, first), second);
    let b = drawn(g, both);
    assert forall|y: int, x: int| 0 <= y < a.len() && 0 <= x < a[y].len() implies (
    #[trigger] a[y][x]) == b[y][x] by {
        assert(drawn(g, first)[y].len() == g[y].len());
        assert(both(x, y) == both(x, y));
    }
    lemma_same_grid(a, b);
}

/// A paint that leaves every cell alone changes nothing.
pub proof fn lemma_nothing_drawn(g: Seq<Seq<Look>>, paint: spec_fn(int, int) -> Option<Look>)
    requires
        forall|y: int, x: int|
            0 <= y < g.len() && 0 <= x < g[y].len() ==> (#[trigger] paint(x, y)) is None,
    ensures
        drawn(g, paint) == g,
{
    let a = drawn(g, paint);
    assert forall|y: int, x: int| 0 <= y < a.len() && 0 <= x < a[y].len() implies (
    #[trigger] a[y][x]) == g[y][x] by {
        assert(paint(x, y) is None);
    }
    lemma_same_grid(a, g);
}

/// Paints that agree on every cell of the grid draw the same.
pub proof fn lemma_same_paint(
    g: Seq<Seq<Look>>,
    a: spec_fn(int, int) -> Option<Look>,
    b: spec_fn(int, int) -> Option<Look>,
)
    requires
        forall|y: int, x: int|
            0 <= y < g.len() && 0 <= x < g[y].len() ==> (#[trigger] a(x, y)) == b(x, y),
    ensures
        drawn(g, a) == drawn(g, b),
{
    let p = drawn(g, a);
    let q = drawn(g, b);
    assert forall|y: int, x: int| 0 <= y < p.len() && 0 <= x < p[y].len() implies (
    #[trigger] p[y][x]) == q[y][x] by {
        assert(a(x, y) == b(x, y));
    }
    lemma_same_grid(p, q);
}

/// Set a cell of the grid, if there is one at that place.
pub fn set_cell(buffer: &mut Vec<Vec<RenderCell>>, row: usize, col: usize, cell: RenderCell)
    ensures
        looks(final(buffer)@) == drawn(looks(old(buffer)@), at(row as int, col as int, cell@)),
{
    let ghost g = looks(buffer@);
    let ghost paint = at(row as int, col as int, cell@);
    if row < buffer.len() {
        if col < buffer[row].len() {
            let ghost before = buffer@[row as int]@;
            buffer[row].set(col, cell);
            proof {
                let b = looks(buffer@);
                let want = drawn(g, paint);
                assert forall|y: int, x: int| 0 <= y < b.len() && 0 <= x < b[y].len() implies (
                #[trigger] b[y][x]) == want[y][x] by {}
                lemma_same_grid(b, want);
            }
            return;
        }
    }
    proof {
        lemma_nothing_drawn(g, paint);
    }
}

/// Write one already-built cell into the grid, if there is a cell at that place.
pub fn put_cell(buffer: &mut Vec<Vec<RenderCell>>, row: usize, col: usize, cell: RenderCell)
    ensures
        looks(final(buffer)@) == drawn(looks(old(buffer)@), at(row as int, col as int, cell@)),
{
    set_cell(buffer, row, col, cell);
}

/// Draw a list of cells from left to right, up to column `end`.
pub fn draw_run(
    buffer: &mut Vec<Vec<RenderCell>>,
    row: usize,
    col: usize,
    end: usize,
    cells: &Vec<RenderCell>,
)
    ensures
        looks(final(buffer)@) == drawn(
            looks(old(buffer)@),
            run(row as int, col as int, end as int, row_looks(cells@)),
        ),
{
    let ghost g = looks(buffer@);
    let ghost all = row_looks(cells@);
    let mut i: usize = 0;
    proof {
        lemma_nothing_drawn(g, run(row as int, col as int, end as int, all.take(0)));
    }
    while i < cells.len() && i < end && col < end - i
        invariant
            i <= cells.len(),
            i == 0 || col + i <= end,
            all == row_looks(cells@),
            looks(buffer@) == drawn(g, run(row as int, col as int, end as int, all.take(i as int))),
        decreases cells.len() - i,
    {
        let cell = cells[i].clone();
        let ghost look = cell@;
        set_cell(buffer, row, col + i, cell);
        proof {
            lemma_drawn_twice(
                g,
                run(row as int, col as int, end as int, all.take(i as int)),
                at(row as int, col + i, look),
                run(row as int, col as int, end as int, all.take(i + 1)),
            );
        }
        i += 1;
    }
    proof {
        lemma_same_paint(
            g,
            run(row as int, col as int, end as int, all.take(i as int)),
            run(row as int, col as int, end as int, all),
        );
    }
}

/// Draw a text in the given colors from left to right, up to column `end`.
pub fn draw_text(
    buffer: &mut Vec<Vec<RenderCell>>,
    row: usize,
    col: usize,
    end: usize,
    chars: &Vec<char>,
    fg: CellColor,
    bg: CellColor,
    bold: bool,
)
    ensures
        looks(final(buffer)@) == drawn(
            looks(old(buffer)@),
            run(row as int, col as int, end as int, lettering(chars@, fg, bg, bold)),
        ),
{
    let cells = letter_cells(chars, fg, bg, bold);
    draw_run(buffer, row, col, end, &cells);
}

/// The cells of a text in the given colors.
pub fn letter_cells(chars: &Vec<char>, fg: CellColor, bg: CellColor, bold: bool) -> (r: Vec<
    RenderCell,
>)
    ensures
        row_looks(r@) == lettering(chars@, fg, bg, bold),
{
    let mut r: Vec<RenderCell> = Vec::new();
    let mut i: usize = 0;
    while i < chars.len()
        invariant
            i <= chars.len(),
            r.len() == i,
            forall|k: int| 0 <= k < i ==> (#[trigger] r@[k])@ == glyph(chars@[k], fg, bg, bold),
        decreases chars.len() - i,
    {
        r.push(RenderCell::styled(chars[i], fg, bg, bold));
        i += 1;
    }
    assert(row_looks(r@) =~= lettering(chars@, fg, bg, bold));
    r
}

/// Give every cell of the rectangle `x0..x1` by `y0..y1` the same look.
pub fn fill(
    buffer: &mut Vec<Vec<RenderCell>>,
    x0: usize,
    x1: usize,
    y0: usize,
    y1: usize,
    cell: &RenderCell,
)
    ensures
        looks(final(buffer)@) == drawn(
            looks(old(buffer)@),
            area(x0 as int, x1 as int, y0 as int, y1 as int, cell@),
        ),
{
    let ghost g = looks(buffer@);
    let ghost look = cell@;
    let mut y: usize = y0;
    proof {
        lemma_nothing_drawn(g, area(x0 as int, x1 as int, y0 as int, y as int, look));
    }
    while y < y1
        invariant
            y0 <= y,
            y0 < y ==> y <= y1,
            look == cell@,
            looks(buffer@) == drawn(g, area(x0 as int, x1 as int, y0 as int, y as int, look)),
        decreases y1 - y,
    {
        let ghost rows = area(x0 as int, x1 as int, y0 as int, y as int, look);
        let mut x: usize = x0;
        proof {
            lemma_drawn_twice(
                g,
                rows,
                area(x0 as int, x as int, y as int, y + 1, look),
                over(rows, area(x0 as int, x as int, y as int, y + 1, look)),
            );
            lemma_same_paint(
                g,
                rows,
                over(rows, area(x0 as int, x as int, y as int, y + 1, look)),
            );
        }
        while x < x1
            invariant
                x0 <= x,
                y < y1,
                x0 < x ==> x <= x1,
                look == cell@,
                rows == area(x0 as int, x1 as int, y0 as int, y as int, look),
                looks(buffer@) == drawn(
                    g,
                    over(rows, area(x0 as int, x as int, y as int, y + 1, look)),
                ),
            decreases x1 - x,
        {
            set_cell(buffer, y, x, cell.clone());
            proof {
                lemma_drawn_twice(
                    g,
                    over(rows, area(x0 as int, x as int, y as int, y + 1, look)),
                    at(y as int, x as int, look),
                    over(rows, area(x0 as int, x + 1, y as int, y + 1, look)),
                );
            }
            x += 1;
        }
        proof {
            lemma_same_paint(
                g,
                over(rows, area(x0 as int, x as int, y as int, y + 1, look)),
                area(x0 as int, x1 as int, y0 as int, y + 1, look),
            );
        }
        y += 1;
    }
    proof {
        lemma_same_paint(
            g,
            area(x0 as int, x1 as int, y0 as int, y as int, look),
            area(x0 as int, x1 as int, y0 as int, y1 as int, look),
        );
    }
}

/// A grid of blank cells.
pub open spec fn clean(cols: int, rows: int) -> Seq<Seq<Look>> {
    Seq::new(rows as nat, |y: int| Seq::new(cols as nat, |x: int| crate::protocol::blank()))
}

/// A grid of blank cells.
pub fn blank_grid(cols: u16, rows: u16) -> (r: Vec<Vec<RenderCell>>)
    ensures
        looks(r@) == clean(cols as int, rows as int),
{
    let mut r: Vec<Vec<RenderCell>> = Vec::new();
    let mut y: u16 = 0;
    while y < rows
        invariant
            y <= rows,
            r.len() == y,
            forall|i: int|
                0 <= i < y ==> row_looks((#[trigger] r@[i])@) == Seq::new(
                    cols as nat,
                    |x: int| crate::protocol::blank(),
                ),
        decreases rows - y,
    {
        let mut line: Vec<RenderCell> = Vec::new();
        let mut x: u16 = 0;
        while x < cols
            invariant
                x <= cols,
                line.len() == x,
                forall|i: int| 0 <= i < x ==> (#[trigger] line@[i])@ == crate::protocol::blank(),
            decreases cols - x,
        {
            line.push(RenderCell::default());
            x += 1;
        }
        assert(row_looks(line@) =~= Seq::new(cols as nat, |x: int| crate::protocol::blank()));
        r.push(line);
        y += 1;
    }
    assert(looks(r@) =~= clean(cols as int, rows as int));
    r
}

/// A copy of a grid.
pub fn copy_grid(b: &Vec<Vec<RenderCell>>) -> (r: Vec<Vec<RenderCell>>)
    ensures
        looks(r@) == looks(b@),
{
    let mut r: Vec<Vec<RenderCell>> = Vec::new();
    let mut y: usize = 0;
    while y < b.len()
        invariant
            y <= b.len(),
            r.len() == y,
            forall|i: int| 0 <= i < y ==> row_looks((#[trigger] r@[i])@) == row_looks(b@[i]@),
        decreases b.len() - y,
    {
        let line = copy_cells(&b[y], 0, b[y].len());
        assert(b@[y as int]@.subrange(0, b@[y as int]@.len() as int) =~= b@[y as int]@);
        r.push(line);
        y += 1;
    }
    assert(looks(r@) =~= looks(b@));
    r
}

/// A copy of the cells `from..to` of a row.
pub fn copy_cells(b: &Vec<RenderCell>, from: usize, to: usize) -> (r: Vec<RenderCell>)
    requires
        from <= to <= b.len(),
    ensures
        row_looks(r@) == row_looks(b@.subrange(from as int, to as int)),
{
    let mut r: Vec<RenderCell> = Vec::new();
    let mut x: usize = from;
    while x < to
        invariant
            from <= x <= to <= b.len(),
            r.len() == x - from,
            forall|i: int| 0 <= i < x - from ==> (#[trigger] r@[i])@ == b@[from + i]@,
        decreases to - x,
    {
        r.push(b[x].clone());
        x += 1;
    }
    assert(row_looks(r@) =~= row_looks(b@.subrange(from as int, to as int)));
    r
}

} // verus!
