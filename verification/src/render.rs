//! What a client is sent to bring its screen up to date.

use crate::blit::view_row;
use crate::client::{deref_screen, ClientState, ClientView};
use crate::compositor::same_shape;
use crate::grid::{copy_cells, copy_grid, looks, row_looks};
use crate::protocol::{blank, CellChange, Look, PaneRect, RenderCell};
use crate::screen::{sub0, Screen};
use crate::text::same_text;
use vstd::prelude::*;

verus! {

// ---------------------------------------------------------------------------
// Differences between two frames
// ---------------------------------------------------------------------------

/// A changed cell as a mathematical value.
pub struct ChangeView {
    pub x: u16,
    pub y: u16,
    pub look: Look,
}

impl View for CellChange {
    type V = ChangeView;

    open spec fn view(&self) -> ChangeView {
        ChangeView { x: self.x, y: self.y, look: self.cell@ }
    }
}

/// The changes of a list.
pub open spec fn change_views(v: Seq<CellChange>) -> Seq<ChangeView> {
    Seq::new(v.len(), |i: int| v[i]@)
}

/// The cell of a grid, if there is one.
pub open spec fn cell_at(g: Seq<Seq<Look>>, x: int, y: int) -> Option<Look> {
    if 0 <= y < g.len() && 0 <= x < g[y].len() {
        Some(g[y][x])
    } else {
        None
    }
}

/// The change that puts the cell of a grid in place.
pub open spec fn change_to(curr: Seq<Seq<Look>>, x: int, y: int) -> ChangeView {
    ChangeView { x: x as u16, y: y as u16, look: curr[y][x] }
}

/// The cell is behind a wide glyph whose own cell stayed the same.
pub open spec fn behind_kept_glyph(
    prev: Seq<Seq<Look>>,
    curr: Seq<Seq<Look>>,
    x: int,
    y: int,
) -> bool {
    &&& curr[y][x].width == 0
    &&& x > 0
    &&& curr[y][x - 1].width == 2
    &&& cell_at(prev, x - 1, y) == Some(curr[y][x - 1])
}

/// The changes that one cell gives rise to: none if it stayed the same; its own,
/// after that of the wide glyph before it where only the cell behind it changed.
pub open spec fn changes_at(
    prev: Seq<Seq<Look>>,
    curr: Seq<Seq<Look>>,
    x: int,
    y: int,
) -> Seq<ChangeView> {
    if cell_at(prev, x, y) == Some(curr[y][x]) {
        Seq::empty()
    } else if behind_kept_glyph(prev, curr, x, y) {
        seq![change_to(curr, x - 1, y), change_to(curr, x, y)]
    } else {
        seq![change_to(curr, x, y)]
    }
}

/// The changes of the first `n` cells of a row.
pub open spec fn row_changes(
    prev: Seq<Seq<Look>>,
    curr: Seq<Seq<Look>>,
    y: int,
    n: int,
) -> Seq<ChangeView>
    decreases n,
{
    if n <= 0 {
        Seq::empty()
    } else {
        row_changes(prev, curr, y, n - 1) + changes_at(prev, curr, n - 1, y)
    }
}

/// The changes of the first `n` rows.
pub open spec fn changes(prev: Seq<Seq<Look>>, curr: Seq<Seq<Look>>, n: int) -> Seq<ChangeView>
    decreases n,
{
    if n <= 0 {
        Seq::empty()
    } else {
        changes(prev, curr, n - 1) + row_changes(prev, curr, n - 1, curr[n - 1].len() as int)
    }
}

/// All changes from one frame to another, in reading order.
pub open spec fn diff(prev: Seq<Seq<Look>>, curr: Seq<Seq<Look>>) -> Seq<ChangeView> {
    changes(prev, curr, curr.len() as int)
}

fn same_at(prev: &[Vec<RenderCell>], x: usize, y: usize, cell: &RenderCell) -> (r: bool)
    ensures
        r == (cell_at(looks(prev@), x as int, y as int) == Some(cell@)),
{
    if y < prev.len() && x < prev[y].len() {
        assert(looks(prev@)[y as int] == row_looks(prev@[y as int]@));
        prev[y][x].same(cell)
    } else {
        false
    }
}

proof fn lemma_one_more(done: Seq<CellChange>, c: CellChange)
    ensures
        change_views(done.push(c)) == change_views(done).push(c@),
{
    assert(change_views(done.push(c)) =~= change_views(done).push(c@));
}

/// The changed cells from one frame to the next. A cell behind a wide glyph is
/// preceded by the glyph, so that it is drawn whole.
pub fn compute_diff(prev: &[Vec<RenderCell>], curr: &[Vec<RenderCell>]) -> (r: Vec<CellChange>)
    ensures
        change_views(r@) == diff(looks(prev@), looks(curr@)),
{
    let ghost p = looks(prev@);
    let ghost c = looks(curr@);
    let mut out: Vec<CellChange> = Vec::new();
    assert(change_views(out@) =~= Seq::empty());
    let mut y: usize = 0;
    while y < curr.len()
        invariant
            y <= curr.len(),
            p == looks(prev@),
            c == looks(curr@),
            change_views(out@) == changes(p, c, y as int),
        decreases curr.len() - y,
    {
        let row: &Vec<RenderCell> = &curr[y];
        let ghost above = changes(p, c, y as int);
        assert(c[y as int] == row_looks(row@));
        assert(above + Seq::empty() =~= above);
        let mut x: usize = 0;
        while x < row.len()
            invariant
                x <= row.len(),
                y < curr.len(),
                p == looks(prev@),
                c == looks(curr@),
                c[y as int] == row_looks(row@),
                change_views(out@) == above + row_changes(p, c, y as int, x as int),
            decreases row.len() - x,
        {
            let ghost before = row_changes(p, c, y as int, x as int);
            let cell: &RenderCell = &row[x];
            assert(c[y as int][x as int] == cell@);
            if !same_at(prev, x, y, cell) {
                let kept = cell.width == 0 && x > 0 && row[x - 1].width == 2 && same_at(
                    prev,
                    x - 1,
                    y,
                    &row[x - 1],
                );
                assert(kept == behind_kept_glyph(p, c, x as int, y as int));
                if kept {
                    let lead = CellChange {
                        x: (x - 1) as u16,
                        y: y as u16,
                        cell: row[x - 1].clone(),
                    };
                    proof {
                        lemma_one_more(out@, lead);
                        assert(lead@ == change_to(c, x - 1, y as int));
                    }
                    out.push(lead);
                }
                let own = CellChange { x: x as u16, y: y as u16, cell: cell.clone() };
                proof {
                    lemma_one_more(out@, own);
                    assert(own@ == change_to(c, x as int, y as int));
                }
                out.push(own);
            }
            proof {
                assert(change_views(out@) =~= above + before + changes_at(
                    p,
                    c,
                    x as int,
                    y as int,
                ));
                assert(above + before + changes_at(p, c, x as int, y as int) =~= above + (before
                    + changes_at(p, c, x as int, y as int)));
            }
            x += 1;
        }
        y += 1;
    }
    out
}

/// The grid with one change made.
pub open spec fn changed(g: Seq<Seq<Look>>, c: ChangeView) -> Seq<Seq<Look>> {
    if c.y < g.len() && c.x < g[c.y as int].len() {
        g.update(c.y as int, g[c.y as int].update(c.x as int, c.look))
    } else {
        g
    }
}

/// The grid with all changes made, one after the other.
pub open spec fn applied(g: Seq<Seq<Look>>, list: Seq<ChangeView>) -> Seq<Seq<Look>>
    decreases list.len(),
{
    if list.len() == 0 {
        g
    } else {
        changed(applied(g, list.drop_last()), list.last())
    }
}

proof fn lemma_applied_in_turn(g: Seq<Seq<Look>>, a: Seq<ChangeView>, b: Seq<ChangeView>)
    ensures
        applied(g, a + b) == applied(applied(g, a), b),
    decreases b.len(),
{
    if b.len() == 0 {
        assert(a + b =~= a);
    } else {
        lemma_applied_in_turn(g, a, b.drop_last());
        assert((a + b).drop_last() =~= a + b.drop_last());
        assert((a + b).last() == b.last());
    }
}

/// The new frame up to column `n` of row `y` in reading order, the old one after.
spec fn halfway(
    prev: Seq<Seq<Look>>,
    curr: Seq<Seq<Look>>,
    y: int,
    n: int,
) -> Seq<Seq<Look>> {
    Seq::new(
        curr.len(),
        |r: int|
            Seq::new(
                curr[r].len(),
                |c: int|
                    if r < y || (r == y && c < n) {
                        curr[r][c]
                    } else {
                        prev[r][c]
                    },
            ),
    )
}

proof fn lemma_equal_grids(a: Seq<Seq<Look>>, b: Seq<Seq<Look>>)
    requires
        same_shape(a, b),
        forall|y: int, x: int|
            0 <= y < a.len() && 0 <= x < a[y].len() ==> #[trigger] a[y][x] == b[y][x],
    ensures
        a == b,
{
    assert forall|y: int| 0 <= y < a.len() implies a[y] == b[y] by {
        assert(a[y].len() == b[y].len());
        assert(a[y] =~= b[y]);
    }
    assert(a =~= b);
}

proof fn lemma_one_cell_further(prev: Seq<Seq<Look>>, curr: Seq<Seq<Look>>, x: int, y: int)
    requires
        same_shape(prev, curr),
        0 <= y < curr.len() <= 65536,
        0 <= x < curr[y].len() <= 65536,
    ensures
        applied(halfway(prev, curr, y, x), changes_at(prev, curr, x, y)) == halfway(
            prev,
            curr,
            y,
            x + 1,
        ),
{
    let g = halfway(prev, curr, y, x);
    let next = halfway(prev, curr, y, x + 1);
    let list = changes_at(prev, curr, x, y);
    assert(prev[y].len() == curr[y].len());
    reveal_with_fuel(applied, 3);
    if list.len() == 0 {
        lemma_equal_grids(g, next);
    } else if list.len() == 1 {
        assert(list.drop_last() =~= Seq::empty());
        assert(list.last() == change_to(curr, x, y));
        lemma_equal_grids(changed(g, change_to(curr, x, y)), next);
    } else {
        let lead = change_to(curr, x - 1, y);
        assert(list.drop_last() =~= seq![lead]);
        assert(list.drop_last().drop_last() =~= Seq::empty());
        lemma_equal_grids(changed(g, lead), g);
        lemma_equal_grids(changed(g, change_to(curr, x, y)), next);
    }
}

proof fn lemma_one_row(prev: Seq<Seq<Look>>, curr: Seq<Seq<Look>>, y: int, n: int)
    requires
        same_shape(prev, curr),
        0 <= y < curr.len() <= 65536,
        0 <= n <= curr[y].len() <= 65536,
    ensures
        applied(halfway(prev, curr, y, 0), row_changes(prev, curr, y, n)) == halfway(
            prev,
            curr,
            y,
            n,
        ),
    decreases n,
{
    if n > 0 {
        lemma_one_row(prev, curr, y, n - 1);
        lemma_applied_in_turn(
            halfway(prev, curr, y, 0),
            row_changes(prev, curr, y, n - 1),
            changes_at(prev, curr, n - 1, y),
        );
        lemma_one_cell_further(prev, curr, n - 1, y);
    }
}

proof fn lemma_some_rows(prev: Seq<Seq<Look>>, curr: Seq<Seq<Look>>, n: int)
    requires
        same_shape(prev, curr),
        0 <= n <= curr.len() <= 65536,
        forall|y: int| 0 <= y < curr.len() ==> (#[trigger] curr[y]).len() <= 65536,
    ensures
        applied(prev, changes(prev, curr, n)) == halfway(prev, curr, n, 0),
    decreases n,
{
    if n <= 0 {
        assert forall|y: int| 0 <= y < prev.len() implies (#[trigger] prev[y]).len() == halfway(
            prev,
            curr,
            0,
            0,
        )[y].len() by {}
        lemma_equal_grids(prev, halfway(prev, curr, 0, 0));
    } else {
        let y = n - 1;
        lemma_some_rows(prev, curr, y);
        assert(curr[y].len() <= 65536);
        lemma_applied_in_turn(
            prev,
            changes(prev, curr, y),
            row_changes(prev, curr, y, curr[y].len() as int),
        );
        lemma_one_row(prev, curr, y, curr[y].len() as int);
        lemma_equal_grids(
            halfway(prev, curr, y, curr[y].len() as int),
            halfway(prev, curr, n, 0),
        );
    }
}

/// Making the changes turns the old frame into the new one. The frames have the same
/// size, and no more rows or columns than a change can name.
pub proof fn law_a_diff_leads_to_the_new_frame(prev: Seq<Seq<Look>>, curr: Seq<Seq<Look>>)
    requires
        same_shape(prev, curr),
        curr.len() <= 65536,
        forall|y: int| 0 <= y < curr.len() ==> (#[trigger] curr[y]).len() <= 65536,
    ensures
        applied(prev, diff(prev, curr)) == curr,
{
    lemma_some_rows(prev, curr, curr.len() as int);
    lemma_equal_grids(halfway(prev, curr, curr.len() as int, 0), curr);
}

proof fn lemma_no_row_changes(g: Seq<Seq<Look>>, y: int, n: int)
    requires
        0 <= y < g.len(),
        n <= g[y].len(),
    ensures
        row_changes(g, g, y, n) == Seq::<ChangeView>::empty(),
    decreases n,
{
    if n > 0 {
        lemma_no_row_changes(g, y, n - 1);
        assert(row_changes(g, g, y, n) =~= Seq::empty());
    }
}

proof fn lemma_no_changes(g: Seq<Seq<Look>>, n: int)
    requires
        n <= g.len(),
    ensures
        changes(g, g, n) == Seq::<ChangeView>::empty(),
    decreases n,
{
    if n > 0 {
        lemma_no_changes(g, n - 1);
        lemma_no_row_changes(g, n - 1, g[n - 1].len() as int);
        assert(changes(g, g, n) =~= Seq::empty());
    }
}

/// A frame that did not change gives rise to no changes.
pub proof fn law_an_unchanged_frame_sends_nothing(g: Seq<Seq<Look>>)
    ensures
        diff(g, g) == Seq::<ChangeView>::empty(),
{
    lemma_no_changes(g, g.len() as int);
}

/// Where the cell behind a wide glyph changed, the glyph is in the list as well, just
/// before it.
pub proof fn law_no_wide_glyph_is_left_in_half(
    prev: Seq<Seq<Look>>,
    curr: Seq<Seq<Look>>,
    x: int,
    y: int,
)
    requires
        0 <= y < curr.len(),
        0 < x < curr[y].len(),
        curr[y][x].width == 0,
        curr[y][x - 1].width == 2,
        cell_at(prev, x, y) != Some(curr[y][x]),
    ensures
        ({
            let list = changes_at(prev, curr, x - 1, y) + changes_at(prev, curr, x, y);
            list.len() >= 2 && list.last() == change_to(curr, x, y) && list[list.len() - 2]
                == change_to(curr, x - 1, y)
        }),
{
    let list = changes_at(prev, curr, x - 1, y) + changes_at(prev, curr, x, y);
    assert(list.last() == changes_at(prev, curr, x, y).last());
    if !behind_kept_glyph(prev, curr, x, y) {
        assert(cell_at(prev, x - 1, y) != Some(curr[y][x - 1]));
        assert(list[list.len() - 2] == changes_at(prev, curr, x - 1, y).last());
    }
}

// ---------------------------------------------------------------------------
// Messages
// ---------------------------------------------------------------------------

/// What goes with every frame besides its cells.
#[derive(Clone, Copy, PartialEq, Eq, Debug, Structural)]
pub struct FrameInfo {
    pub cursor_x: u16,
    pub cursor_y: u16,
    pub cursor_visible: bool,
    pub cursor_style: u8,
    pub focused_pane_rect: Option<PaneRect>,
    pub application_cursor_keys: bool,
    /// The index of the first line that the focused pane shows.
    pub viewport_top: usize,
    pub scroll_offset: usize,
}

/// A message that brings a client's screen up to date.
#[derive(Debug)]
pub enum RenderMessage {
    /// All cells.
    FullRender { cells: Vec<Vec<RenderCell>>, info: FrameInfo },
    /// The cells that changed since the frame before.
    RenderDiff { changes: Vec<CellChange>, info: FrameInfo },
    /// A pane whose rows move by `delta`, down being positive, and the rows that come
    /// into view.
    ScrollRender { pane: PaneRect, delta: i16, new_rows: Vec<Vec<RenderCell>>, info: FrameInfo },
}

/// A message as a mathematical value.
pub enum MessageView {
    FullRender { cells: Seq<Seq<Look>>, info: FrameInfo },
    RenderDiff { changes: Seq<ChangeView>, info: FrameInfo },
    ScrollRender { pane: PaneRect, delta: i16, new_rows: Seq<Seq<Look>>, info: FrameInfo },
}

impl View for RenderMessage {
    type V = MessageView;

    open spec fn view(&self) -> MessageView {
        match self {
            RenderMessage::FullRender { cells, info } => MessageView::FullRender {
                cells: looks(cells@),
                info: *info,
            },
            RenderMessage::RenderDiff { changes, info } => MessageView::RenderDiff {
                changes: change_views(changes@),
                info: *info,
            },
            RenderMessage::ScrollRender { pane, delta, new_rows, info } =>
                MessageView::ScrollRender {
                pane: *pane,
                delta: *delta,
                new_rows: looks(new_rows@),
                info: *info,
            },
        }
    }
}

/// The index of the first line that the focused pane shows.
pub open spec fn top_of_view(
    screen: Option<Screen>,
    offset: usize,
    rect: Option<PaneRect>,
    rows: u16,
) -> int {
    match screen {
        Some(s) => if offset == 0 {
            s.scrollback.len() as int
        } else {
            s.view_top(
                offset as int,
                match rect {
                    Some(r) => r.height as int,
                    None => sub0(rows as int, 1),
                },
            )
        },
        None => 0,
    }
}

/// The index of the first line that the focused pane shows. `rect` is the pane's
/// content area, where it is on screen.
pub fn viewport_top(
    screen: Option<&Screen>,
    offset: usize,
    rect: Option<PaneRect>,
    rows: u16,
) -> (r: usize)
    ensures
        r == top_of_view(deref_screen(screen), offset, rect, rows),
{
    match screen {
        Some(s) => {
            if offset == 0 {
                s.scrollback.len()
            } else {
                let height: usize = match rect {
                    Some(r) => r.height as usize,
                    None => rows.saturating_sub(1) as usize,
                };
                s.first_line(offset, height)
            }
        },
        None => 0,
    }
}

/// The distance between two offsets.
pub open spec fn distance(a: usize, b: usize) -> int {
    if a < b {
        b - a
    } else {
        a - b
    }
}

/// A scrolled pane is sent as a shift of its rows if it was scrolled before, did not
/// reach the first line, and moved by a few rows, fewer than it has.
pub open spec fn shifts(offset: usize, prev: usize, top: int, rect: Option<PaneRect>) -> bool {
    &&& offset > 0
    &&& prev > 0
    &&& top > 0
    &&& 0 < distance(offset, prev) <= 10
    &&& rect is Some
    &&& distance(offset, prev) < rect->0.height
}

/// The cells of a frame in the columns of a pane, in row `y`; blank where the frame
/// does not reach.
pub open spec fn pane_row(g: Seq<Seq<Look>>, rect: PaneRect, y: int) -> Seq<Look> {
    if 0 <= y < g.len() && rect.x + rect.width <= g[y].len() {
        g[y].subrange(rect.x as int, rect.x + rect.width)
    } else {
        Seq::new(rect.width as nat, |i: int| blank())
    }
}

/// The first row that came into view: the pane's first when it scrolled up, else so
/// many rows from its end.
pub open spec fn first_new_row(rect: PaneRect, offset: usize, prev: usize) -> int {
    if offset > prev {
        rect.y as int
    } else {
        rect.y + rect.height - distance(offset, prev)
    }
}

/// The rows that came into view.
pub open spec fn revealed(
    g: Seq<Seq<Look>>,
    rect: PaneRect,
    offset: usize,
    prev: usize,
) -> Seq<Seq<Look>> {
    Seq::new(
        distance(offset, prev) as nat,
        |i: int| pane_row(g, rect, first_new_row(rect, offset, prev) + i),
    )
}

fn cells_of_pane(cells: &Vec<Vec<RenderCell>>, rect: PaneRect, y: usize) -> (r: Vec<RenderCell>)
    ensures
        row_looks(r@) == pane_row(looks(cells@), rect, y as int),
{
    let x: usize = rect.x as usize;
    let end: usize = x + rect.width as usize;
    if y < cells.len() && end <= cells[y].len() {
        let r = copy_cells(&cells[y], x, end);
        assert(row_looks(r@) =~= pane_row(looks(cells@), rect, y as int));
        r
    } else {
        let mut r: Vec<RenderCell> = Vec::new();
        let mut i: u16 = 0;
        while i < rect.width
            invariant
                i <= rect.width,
                r.len() == i,
                forall|k: int| 0 <= k < i ==> (#[trigger] r@[k])@ == blank(),
            decreases rect.width - i,
        {
            r.push(RenderCell::default());
            i += 1;
        }
        assert(row_looks(r@) =~= pane_row(looks(cells@), rect, y as int));
        r
    }
}

/// The message for a client whose frame was drawn at its own scroll offset.
pub open spec fn own_message(
    cells: Seq<Seq<Look>>,
    info: FrameInfo,
    prev: usize,
) -> MessageView {
    let rect = info.focused_pane_rect;
    if shifts(info.scroll_offset, prev, info.viewport_top as int, rect) {
        MessageView::ScrollRender {
            pane: rect->0,
            delta: (info.scroll_offset - prev) as i16,
            new_rows: revealed(cells, rect->0, info.scroll_offset, prev),
            info,
        }
    } else {
        MessageView::FullRender { cells, info }
    }
}

/// What goes with a frame drawn at an offset: no cursor in a scrolled view.
pub open spec fn placed_info(
    info: FrameInfo,
    offset: usize,
    screen: Option<Screen>,
    rows: u16,
) -> FrameInfo {
    FrameInfo {
        cursor_visible: info.cursor_visible && offset == 0,
        viewport_top: top_of_view(screen, offset, info.focused_pane_rect, rows) as usize,
        scroll_offset: offset,
        ..info
    }
}

/// The cells behind an optional frame.
pub open spec fn opt_looks(b: Option<Vec<Vec<RenderCell>>>) -> Option<Seq<Seq<Look>>> {
    match b {
        Some(v) => Some(looks(v@)),
        None => None,
    }
}

/// Send a client the frame drawn at its own scroll offset. `screen` is the focused
/// pane's. The second result is the frame to compare the next one with; a scrolled
/// frame is never compared with.
pub fn send_full_render_to_client(
    client: &mut ClientState,
    cells: Vec<Vec<RenderCell>>,
    info: FrameInfo,
    screen: Option<&Screen>,
    rows: u16,
) -> (r: (RenderMessage, Option<Vec<Vec<RenderCell>>>))
    ensures
        final(client)@ == (ClientView {
            prev_scroll_offset: old(client)@.scroll_offset,
            ..old(client)@
        }),
        r.0@ == own_message(
            looks(cells@),
            placed_info(info, old(client)@.scroll_offset, deref_screen(screen), rows),
            old(client)@.prev_scroll_offset,
        ),
        opt_looks(r.1) == (if old(client)@.scroll_offset == 0 {
            Some(looks(cells@))
        } else {
            None
        }),
{
    let offset: usize = client.scroll_offset;
    let prev: usize = client.prev_scroll_offset;
    client.prev_scroll_offset = offset;
    let placed = FrameInfo {
        cursor_x: info.cursor_x,
        cursor_y: info.cursor_y,
        cursor_visible: info.cursor_visible && offset == 0,
        cursor_style: info.cursor_style,
        focused_pane_rect: info.focused_pane_rect,
        application_cursor_keys: info.application_cursor_keys,
        viewport_top: viewport_top(screen, offset, info.focused_pane_rect, rows),
        scroll_offset: offset,
    };
    let baseline: Option<Vec<Vec<RenderCell>>> = if offset == 0 {
        Some(copy_grid(&cells))
    } else {
        None
    };
    let moved: usize = if offset < prev {
        prev - offset
    } else {
        offset - prev
    };
    match info.focused_pane_rect {
        Some(rect) => {
            if offset > 0 && prev > 0 && placed.viewport_top > 0 && moved > 0 && moved <= 10
                && moved < rect.height as usize {
                let first: usize = if offset > prev {
                    rect.y as usize
                } else {
                    rect.y as usize + rect.height as usize - moved
                };
                let mut new_rows: Vec<Vec<RenderCell>> = Vec::new();
                let mut i: usize = 0;
                while i < moved
                    invariant
                        i <= moved,
                        moved <= 10,
                        first <= 200000,
                        new_rows.len() == i,
                        forall|k: int|
                            0 <= k < i ==> row_looks((#[trigger] new_rows@[k])@) == pane_row(
                                looks(cells@),
                                rect,
                                first + k,
                            ),
                    decreases moved - i,
                {
                    new_rows.push(cells_of_pane(&cells, rect, first + i));
                    i += 1;
                }
                assert(looks(new_rows@) =~= revealed(looks(cells@), rect, offset, prev));
                let delta: i16 = if offset > prev {
                    moved as i16
                } else {
                    -(moved as i16)
                };
                return (
                    RenderMessage::ScrollRender { pane: rect, delta, new_rows, info: placed },
                    baseline,
                );
            }
        },
        None => {},
    }
    (RenderMessage::FullRender { cells, info: placed }, baseline)
}

/// Scrolling shifts the rows of a pane: what a row shows now, the row that many
/// further down, or up, showed before. So the rows that came into view complete it.
pub proof fn law_scrolling_shifts_the_rows(
    screen: Screen,
    height: int,
    offset: usize,
    prev: usize,
    row: int,
)
    requires
        offset > 0,
        prev > 0,
        height >= 0,
        offset + height <= screen.total(),
        prev + height <= screen.total(),
    ensures
        view_row(screen, height, offset, row) == view_row(
            screen,
            height,
            prev,
            row - (offset - prev),
        ),
{
}

/// The first row's length, if there is a row.
pub open spec fn first_len(g: Seq<Seq<Look>>) -> Option<nat> {
    if g.len() == 0 {
        None
    } else {
        Some(g[0].len())
    }
}

/// The message for a client in the live view: the changes since the frame it has, or
/// all cells where there is no such frame, where its size is another, or where more
/// than half of the cells changed.
pub open spec fn live_message(
    baseline: Option<Seq<Seq<Look>>>,
    cells: Seq<Seq<Look>>,
    info: FrameInfo,
    cols: u16,
    rows: u16,
) -> MessageView {
    match baseline {
        Some(prev) => if prev.len() == cells.len() && first_len(prev) == first_len(cells) && diff(
            prev,
            cells,
        ).len() <= cols as int * rows as int / 2 {
            MessageView::RenderDiff { changes: diff(prev, cells), info }
        } else {
            MessageView::FullRender { cells, info }
        },
        None => MessageView::FullRender { cells, info },
    }
}

/// The cells behind an optional reference to a frame.
pub open spec fn ref_looks(b: Option<&Vec<Vec<RenderCell>>>) -> Option<Seq<Seq<Look>>> {
    match b {
        Some(v) => Some(looks(v@)),
        None => None,
    }
}

/// The message for a client in the live view. `baseline` is the frame that the client
/// has, unless it must get a full one.
pub fn broadcast_message(
    baseline: Option<&Vec<Vec<RenderCell>>>,
    cells: &Vec<Vec<RenderCell>>,
    info: FrameInfo,
    cols: u16,
    rows: u16,
) -> (r: RenderMessage)
    ensures
        r@ == live_message(ref_looks(baseline), looks(cells@), info, cols, rows),
{
    match baseline {
        Some(prev) => {
            let same_size = prev.len() == cells.len() && (cells.len() == 0 || prev[0].len()
                == cells[0].len());
            if same_size {
                let changes = compute_diff(prev, cells);
                assert(cols as int * rows as int <= 65535 * 65535) by (nonlinear_arith);
                assert(cols as int * rows as int >= 0) by (nonlinear_arith);
                let threshold: u64 = cols as u64 * rows as u64 / 2;
                if changes.len() as u64 <= threshold {
                    return RenderMessage::RenderDiff { changes, info };
                }
            }
        },
        None => {},
    }
    RenderMessage::FullRender { cells: copy_grid(cells), info }
}

/// Every row of the grid is as long as the first.
pub open spec fn rectangular(g: Seq<Seq<Look>>) -> bool {
    forall|y: int| 0 <= y < g.len() ==> (#[trigger] g[y]).len() == g[0].len()
}

/// What a client shows after a message, if it showed `before`.
pub open spec fn shown_after(before: Seq<Seq<Look>>, m: MessageView) -> Seq<Seq<Look>> {
    match m {
        MessageView::FullRender { cells, .. } => cells,
        MessageView::RenderDiff { changes, .. } => applied(before, changes),
        MessageView::ScrollRender { .. } => before,
    }
}

/// A message against the frame that a client shows leads to the new frame.
pub(crate) proof fn lemma_live_message(
    before: Seq<Seq<Look>>,
    baseline: Option<Seq<Seq<Look>>>,
    cells: Seq<Seq<Look>>,
    info: FrameInfo,
    cols: u16,
    rows: u16,
)
    requires
        baseline is Some ==> baseline->0 == before,
        rectangular(before),
        rectangular(cells),
        cells.len() <= 65536,
        cells.len() > 0 ==> cells[0].len() <= 65536,
    ensures
        shown_after(before, live_message(baseline, cells, info, cols, rows)) == cells,
{
    if live_message(baseline, cells, info, cols, rows) is RenderDiff {
        assert forall|y: int| 0 <= y < before.len() implies (#[trigger] before[y]).len()
            == cells[y].len() by {
            assert(cells[y].len() == cells[0].len());
        }
        law_a_diff_leads_to_the_new_frame(before, cells);
    }
}

// ---------------------------------------------------------------------------
// Which clients a frame goes to
// ---------------------------------------------------------------------------

/// The client is attached to the session.
pub open spec fn attached(c: ClientView, session: Seq<char>) -> bool {
    c.session_name == Some(session)
}

/// Whether a client is attached to a session.
pub fn is_attached(c: &ClientState, session: &str) -> (r: bool)
    ensures
        r == attached(c@, session@),
{
    match &c.session_name {
        Some(s) => same_text(s, session),
        None => false,
    }
}

/// Whether a broadcast goes to a client, and if so whether as a full frame: to those
/// attached to the session in the live view. A full frame that was owed is then no
/// longer owed.
pub fn broadcast_target(c: &mut ClientState, session: &str) -> (r: Option<bool>)
    ensures
        r == (if attached(old(c)@, session@) && old(c)@.scroll_offset == 0 {
            Some(old(c)@.needs_full_render)
        } else {
            None
        }),
        final(c)@ == (ClientView {
            needs_full_render: old(c)@.needs_full_render && r is None,
            ..old(c)@
        }),
{
    if is_attached(c, session) && c.scroll_offset == 0 {
        let force = c.needs_full_render;
        c.needs_full_render = false;
        Some(force)
    } else {
        None
    }
}

} // verus!
