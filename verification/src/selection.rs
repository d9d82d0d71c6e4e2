//! Text selection: the text between two points, and how a drag moves them.

use crate::layout::PaneId;
use crate::screen::{clamp_row, sub0, Row, Screen};
use crate::text::push_char;
use vstd::prelude::*;

verus! {

// ---------------------------------------------------------------------------
// The text of a selection
// ---------------------------------------------------------------------------

/// White space as Unicode has it.
pub open spec fn white(c: char) -> bool {
    let n = c as int;
    ||| 0x9 <= n <= 0xd
    ||| n == 0x20
    ||| n == 0x85
    ||| n == 0xa0
    ||| n == 0x1680
    ||| 0x2000 <= n <= 0x200a
    ||| n == 0x2028
    ||| n == 0x2029
    ||| n == 0x202f
    ||| n == 0x205f
    ||| n == 0x3000
}

/// Whether a character is white space.
pub fn is_white(c: char) -> (r: bool)
    ensures
        r == white(c),
{
    let n: u32 = c as u32;
    (0x9 <= n && n <= 0xd) || n == 0x20 || n == 0x85 || n == 0xa0 || n == 0x1680 || (0x2000 <= n
        && n <= 0x200a) || n == 0x2028 || n == 0x2029 || n == 0x202f || n == 0x205f || n == 0x3000
}

/// The text without the white space at its end.
pub open spec fn trimmed(s: Seq<char>) -> Seq<char>
    decreases s.len(),
{
    if s.len() > 0 && white(s.last()) {
        trimmed(s.drop_last())
    } else {
        s
    }
}

/// The characters of a row in columns `from..to`.
pub open spec fn row_chars(row: Row, from: int, to: int) -> Seq<char> {
    Seq::new(
        if from < to {
            (to - from) as nat
        } else {
            0
        },
        |i: int| row.cells@[from + i].c,
    )
}

/// A point of a selection: the lasting number of its line, and its column.
#[derive(Clone, Copy, PartialEq, Eq, Debug, Structural)]
pub struct Point {
    pub abs: usize,
    pub col: u16,
}

impl Point {
    /// The point comes no later than the other in reading order.
    pub open spec fn no_later(self, other: Point) -> bool {
        self.abs < other.abs || (self.abs == other.abs && self.col <= other.col)
    }
}

/// The two points in reading order.
pub open spec fn in_order(a: Point, b: Point) -> (Point, Point) {
    if a.no_later(b) {
        (a, b)
    } else {
        (b, a)
    }
}

/// The selected text of one row: from the first column on the first line, up to and
/// with the last column on the last line.
pub open spec fn line_text(row: Row, abs: int, first: Point, last: Point) -> Seq<char> {
    let len = row.cells.len() as int;
    let from = if abs == first.abs && first.col < len {
        first.col as int
    } else if abs == first.abs {
        len
    } else {
        0
    };
    let to = if abs == last.abs && last.col + 1 < len {
        last.col + 1
    } else {
        len
    };
    trimmed(row_chars(row, from, to))
}

/// The selected text of the lines that are held, of those before number `end`.
pub open spec fn lines_before(screen: Screen, first: Point, last: Point, end: int) -> Seq<Seq<char>>
    decreases end - first.abs,
{
    if end <= first.abs {
        Seq::empty()
    } else {
        let before = lines_before(screen, first, last, end - 1);
        match screen.line(end - 1 - screen.lines_evicted) {
            Some(row) => before.push(line_text(row, end - 1, first, last)),
            None => before,
        }
    }
}

/// Lines, with a line break between each two.
pub open spec fn joined(lines: Seq<Seq<char>>) -> Seq<char>
    decreases lines.len(),
{
    if lines.len() == 0 {
        Seq::empty()
    } else if lines.len() == 1 {
        lines[0]
    } else {
        joined(lines.drop_last()) + seq!['\n'] + lines.last()
    }
}

/// The text between two points.
pub open spec fn selection_text(screen: Screen, a: Point, b: Point) -> Seq<char> {
    let (first, last) = in_order(a, b);
    joined(lines_before(screen, first, last, last.abs + 1))
}

/// The length of a row's columns `from..to` without the white space at the end.
fn trimmed_end(row: &Row, from: usize, to: usize) -> (r: usize)
    requires
        from <= to <= row.cells.len(),
    ensures
        from <= r <= to,
        row_chars(*row, from as int, r as int) == trimmed(row_chars(*row, from as int, to as int)),
{
    let mut end: usize = to;
    let ghost whole = trimmed(row_chars(*row, from as int, to as int));
    while end > from && is_white(row.cells[end - 1].c)
        invariant
            from <= end <= to <= row.cells.len(),
            trimmed(row_chars(*row, from as int, end as int)) == whole,
        decreases end,
    {
        let ghost here = row_chars(*row, from as int, end as int);
        end -= 1;
        assert(here.drop_last() =~= row_chars(*row, from as int, end as int));
    }
    end
}

/// The text between two points, given by the lasting numbers of their lines. Lines
/// that are no longer held are left out.
pub fn extract_selection_text(
    screen: &Screen,
    anchor_col: u16,
    anchor_abs: usize,
    end_col: u16,
    end_abs: usize,
) -> (r: String)
    ensures
        r@ == selection_text(
            *screen,
            (Point { abs: anchor_abs, col: anchor_col }),
            (Point { abs: end_abs, col: end_col }),
        ),
{
    let a = Point { abs: anchor_abs, col: anchor_col };
    let b = Point { abs: end_abs, col: end_col };
    let forward = a.abs < b.abs || (a.abs == b.abs && a.col <= b.col);
    let (first, last) = if forward {
        (a, b)
    } else {
        (b, a)
    };
    let mut result = String::new();
    let mut any = false;
    let mut abs: u128 = first.abs as u128;
    while abs <= last.abs as u128
        invariant
            first.no_later(last),
            first.abs <= abs <= last.abs + 1,
            any == (lines_before(*screen, first, last, abs as int).len() > 0),
            result@ == joined(lines_before(*screen, first, last, abs as int)),
        decreases last.abs + 1 - abs,
    {
        let ghost before = lines_before(*screen, first, last, abs as int);
        let ghost sofar = result@;
        match screen.line_of_abs(abs as usize) {
            Some(row) => {
                let len: usize = row.cells.len();
                let mut from: usize = 0;
                if abs == first.abs as u128 {
                    from = first.col as usize;
                }
                if from > len {
                    from = len;
                }
                let mut to: usize = len;
                if abs == last.abs as u128 && (last.col as usize) < len {
                    to = last.col as usize + 1;
                }
                if to < from {
                    to = from;
                }
                let stop: usize = trimmed_end(row, from, to);
                let ghost text = row_chars(*row, from as int, stop as int);
                proof {
                    let len = row.cells.len() as int;
                    let f = if abs == first.abs && first.col < len {
                        first.col as int
                    } else if abs == first.abs {
                        len
                    } else {
                        0
                    };
                    let t = if abs == last.abs && last.col + 1 < len {
                        last.col + 1
                    } else {
                        len
                    };
                    assert(row_chars(*row, from as int, to as int) =~= row_chars(*row, f, t));
                    assert(text == line_text(*row, abs as int, first, last));
                }
                if any {
                    push_char(&mut result, '\n');
                }
                let ghost lead = result@;
                let mut i: usize = from;
                assert(lead =~= lead + text.take(0));
                while i < stop
                    invariant
                        from <= i <= stop <= row.cells.len(),
                        text == row_chars(*row, from as int, stop as int),
                        result@ == lead + text.take(i - from),
                    decreases stop - i,
                {
                    push_char(&mut result, row.cells[i].c);
                    i += 1;
                    assert(result@ =~= lead + text.take(i - from));
                }
                assert(text.take(i - from) =~= text);
                proof {
                    let after = before.push(text);
                    assert(lines_before(*screen, first, last, abs + 1) == after);
                    assert(after.drop_last() =~= before);
                    if before.len() == 0 {
                        assert(result@ =~= text);
                    } else {
                        assert(result@ =~= sofar + seq!['\n'] + text);
                    }
                }
                any = true;
            },
            None => {},
        }
        abs += 1;
    }
    result
}

/// The text of a selection does not depend on the direction it was dragged in.
pub proof fn law_the_text_has_no_direction(screen: Screen, a: Point, b: Point)
    ensures
        selection_text(screen, a, b) == selection_text(screen, b, a),
{
}

proof fn lemma_trimmed_is_a_prefix(s: Seq<char>)
    ensures
        trimmed(s).len() <= s.len(),
        trimmed(s) == s.take(trimmed(s).len() as int),
        trimmed(s).len() > 0 ==> !white(trimmed(s).last()),
    decreases s.len(),
{
    if s.len() > 0 && white(s.last()) {
        lemma_trimmed_is_a_prefix(s.drop_last());
        assert(s.drop_last().take(trimmed(s).len() as int) =~= s.take(trimmed(s).len() as int));
    } else {
        assert(s.take(s.len() as int) =~= s);
    }
}

/// No selected line ends in white space, and none is longer than its row.
pub proof fn law_a_selected_line_ends_in_text(row: Row, abs: int, first: Point, last: Point)
    ensures
        line_text(row, abs, first, last).len() > 0 ==> !white(
            line_text(row, abs, first, last).last(),
        ),
        line_text(row, abs, first, last).len() <= row.cells.len(),
{
    let len = row.cells.len() as int;
    let from = if abs == first.abs && first.col < len {
        first.col as int
    } else if abs == first.abs {
        len
    } else {
        0
    };
    let to = if abs == last.abs && last.col + 1 < len {
        last.col + 1
    } else {
        len
    };
    lemma_trimmed_is_a_prefix(row_chars(row, from, to));
}

/// What is behind the trimmed text is white space.
proof fn lemma_trimmed_off(s: Seq<char>, j: int)
    requires
        trimmed(s).len() <= j < s.len(),
    ensures
        white(s[j]),
    decreases s.len(),
{
    if white(s.last()) && j < s.len() - 1 {
        lemma_trimmed_off(s.drop_last(), j);
    }
}

/// The selected lines of a screen that are held, from number `from` up to `end`.
proof fn lemma_lines_held(screen: Screen, first: Point, last: Point, from: int, end: int)
    requires
        from == (if first.abs < screen.lines_evicted {
            screen.lines_evicted as int
        } else {
            first.abs as int
        }),
        end <= screen.lines_evicted + screen.scrollback@.len() + screen.grid@.len(),
    ensures
        lines_before(screen, first, last, end).len() == (if end < from {
            0
        } else {
            end - from
        }),
        forall|k: int|
            0 <= k < end - from ==> #[trigger] lines_before(screen, first, last, end)[k]
                == line_text(
                (screen.scrollback@ + screen.grid@)[from + k - screen.lines_evicted],
                from + k,
                first,
                last,
            ),
    decreases end - first.abs,
{
    if end > first.abs {
        lemma_lines_held(screen, first, last, from, end - 1);
    }
}

/// No line beyond the last one of the screen is selected.
proof fn lemma_lines_beyond(screen: Screen, first: Point, last: Point, end: int, most: int)
    requires
        most == screen.lines_evicted + screen.scrollback@.len() + screen.grid@.len(),
        end >= most,
    ensures
        lines_before(screen, first, last, end) == lines_before(screen, first, last, most),
    decreases end - first.abs,
{
    if end > first.abs && end > most {
        lemma_lines_beyond(screen, first, last, end - 1, most);
    }
}

proof fn lemma_joined(lines: Seq<Seq<char>>)
    requires
        lines.len() > 0,
    ensures
        joined(lines).push('\n') == lines.map_values(|l: Seq<char>| l.push('\n')).flatten(),
    decreases lines.len(),
{
    let ended = |l: Seq<char>| l.push('\n');
    let head = lines.drop_last();
    let all = lines.map_values(ended);
    assert(all =~= head.map_values(ended).push(lines.last().push('\n')));
    head.map_values(ended).lemma_flatten_push(lines.last().push('\n'));
    if lines.len() == 1 {
        assert(head.map_values(ended) =~= Seq::<Seq<char>>::empty());
        assert(joined(lines).push('\n') =~= all.flatten());
    } else {
        lemma_joined(head);
        assert(joined(lines).push('\n') =~= joined(head).push('\n') + lines.last().push('\n'));
    }
}

/// The copied text is that of the selected rows, one line for each row that the screen still
/// holds, blank ones as empty lines. A line has the characters of its row without the white
/// space at its end: on the first line those from the first column on, on the last line
/// those up to and with the last column.
pub proof fn law_every_selected_row_is_copied(screen: Screen, first: Point, last: Point) -> (lines:
    Seq<Seq<char>>)
    requires
        first.abs < last.abs || (first.abs == last.abs && first.col <= last.col),
    ensures
        ({
            let rows = screen.scrollback@ + screen.grid@;
            let from = if first.abs < screen.lines_evicted {
                screen.lines_evicted as int
            } else {
                first.abs as int
            };
            let end = if last.abs < screen.lines_evicted + rows.len() {
                last.abs + 1
            } else {
                screen.lines_evicted + rows.len()
            };
            &&& end <= from ==> selection_text(screen, first, last).len() == 0
            &&& end > from ==> {
                &&& lines.len() == end - from
                &&& selection_text(screen, first, last).push('\n') == lines.map_values(
                    |l: Seq<char>| l.push('\n'),
                ).flatten()
                &&& forall|k: int|
                    0 <= k < lines.len() ==> {
                        let line = #[trigger] lines[k];
                        let cells = rows[from + k - screen.lines_evicted].cells@;
                        let left = if from + k == first.abs {
                            first.col as int
                        } else {
                            0
                        };
                        let right = if from + k == last.abs && last.col + 1 < cells.len() {
                            last.col + 1
                        } else {
                            cells.len() as int
                        };
                        &&& line.len() > 0 ==> !white(line.last())
                        &&& left + line.len() <= right || line.len() == 0
                        &&& forall|j: int|
                            0 <= j < line.len() ==> #[trigger] line[j] == cells[left + j].c
                        &&& forall|j: int|
                            left + line.len() <= j < right ==> white((#[trigger] cells[j]).c)
                    }
            }
        }),
{
    let rows = screen.scrollback@ + screen.grid@;
    let from = if first.abs < screen.lines_evicted {
        screen.lines_evicted as int
    } else {
        first.abs as int
    };
    let most = screen.lines_evicted + rows.len();
    let end = if last.abs < most {
        last.abs + 1
    } else {
        most
    };
    let lines = lines_before(screen, first, last, last.abs + 1);
    if last.abs + 1 > most {
        lemma_lines_beyond(screen, first, last, last.abs + 1, most as int);
    }
    lemma_lines_held(screen, first, last, from, end as int);
    assert(lines == lines_before(screen, first, last, end as int));
    if end > from {
        lemma_joined(lines);
        assert forall|k: int| 0 <= k < lines.len() implies ({
            let line = #[trigger] lines[k];
            let cells = rows[from + k - screen.lines_evicted].cells@;
            let left = if from + k == first.abs {
                first.col as int
            } else {
                0
            };
            let right = if from + k == last.abs && last.col + 1 < cells.len() {
                last.col + 1
            } else {
                cells.len() as int
            };
            &&& line.len() > 0 ==> !white(line.last())
            &&& left + line.len() <= right || line.len() == 0
            &&& forall|j: int| 0 <= j < line.len() ==> #[trigger] line[j] == cells[left + j].c
            &&& forall|j: int| left + line.len() <= j < right ==> white((#[trigger] cells[j]).c)
        }) by {
            let line = lines[k];
            let row = rows[from + k - screen.lines_evicted];
            let cells = row.cells@;
            let left = if from + k == first.abs {
                first.col as int
            } else {
                0
            };
            let right = if from + k == last.abs && last.col + 1 < cells.len() {
                last.col + 1
            } else {
                cells.len() as int
            };
            let held = if left < cells.len() {
                left
            } else {
                cells.len() as int
            };
            let whole = row_chars(row, held, right);
            assert(line == line_text(row, from + k, first, last));
            assert(line == trimmed(whole));
            lemma_trimmed_is_a_prefix(whole);
            assert forall|j: int| 0 <= j < line.len() implies #[trigger] line[j] == cells[left
                + j].c by {
                assert(whole.take(line.len() as int)[j] == whole[j]);
            }
            assert forall|j: int| left + line.len() <= j < right implies white(
                (#[trigger] cells[j]).c,
            ) by {
                lemma_trimmed_off(whole, j - left);
            }
        }
    }
    lines
}

/// Blanks, tabs and line breaks are white space, and what ASCII prints is not.
pub proof fn law_white_space_does_not_print(c: char)
    ensures
        c == ' ' || c == '\t' || c == '\n' || c == '\r' ==> white(c),
        '!' <= c && c <= '~' ==> !white(c),
{
}

// ---------------------------------------------------------------------------
// One step of a drag
// ---------------------------------------------------------------------------

/// A drag in progress. Both ends are kept by the lasting numbers of their lines, so
/// that scrolling and dropped lines leave them on the same text.
#[derive(Clone, Copy, PartialEq, Eq, Debug, Structural)]
pub struct DragSession {
    /// The pane that the drag belongs to.
    pub pane_id: PaneId,
    pub anchor_col: u16,
    pub anchor_abs: usize,
    pub end_abs: usize,
    pub end_col: u16,
}

/// What one step of a drag comes to.
#[derive(Clone, Copy, PartialEq, Eq, Debug, Structural)]
pub struct DragStep {
    /// The scroll offset after the step.
    pub offset: usize,
    pub anchor_col: u16,
    pub anchor_abs: usize,
    /// The row of the view that the anchor is shown in, or the nearest one.
    pub anchor_row: u16,
    pub end_col: u16,
    pub end_row: u16,
    pub end_abs: usize,
    /// The pointer rests on an edge beyond which there is more to scroll to.
    pub repeat: bool,
}

/// The offset after a step whose pointer is in row `end_row` of `height`: one line
/// further on an edge, within what there is to scroll.
pub open spec fn stepped_offset(base: int, max: int, end_row: int, height: int, moves: bool) -> int {
    if !moves {
        base
    } else if end_row == 0 {
        if base + 1 < max {
            base + 1
        } else {
            max
        }
    } else if height > 0 && end_row == height - 1 {
        sub0(base, 1)
    } else {
        base
    }
}

/// There is more to scroll to beyond the edge that the pointer rests on. A single row is
/// both edges: it counts as long as there is more beyond either.
pub open spec fn keeps_scrolling(
    offset: int,
    max: int,
    end_row: int,
    height: int,
    moves: bool,
) -> bool {
    moves && ((end_row == 0 && offset < max) || (height > 0 && end_row == height - 1 && offset > 0))
}

/// One step of a drag over a screen shown in `height` rows, scrolled back by `base`.
/// The anchor is that of the running gesture, or else the start point.
pub open spec fn drag_step(
    screen: Screen,
    height: u16,
    running: Option<(u16, usize)>,
    start: (u16, u16),
    end: (u16, u16),
    base: usize,
    moves: bool,
) -> DragStep {
    let max = screen.max_offset();
    let offset = stepped_offset(base as int, max, end.1 as int, height as int, moves);
    let anchor = match running {
        Some(a) => a,
        None => (start.0, screen.abs_row(base as int, start.1 as int) as usize),
    };
    DragStep {
        offset: offset as usize,
        anchor_col: anchor.0,
        anchor_abs: anchor.1,
        anchor_row: clamp_row(screen.row_at(offset, anchor.1 as int), height) as u16,
        end_col: end.0,
        end_row: end.1,
        end_abs: screen.abs_row(offset, end.1 as int) as usize,
        repeat: keeps_scrolling(offset, max, end.1 as int, height as int, moves),
    }
}

/// Take one step of a drag.
pub fn step_drag(
    screen: &Screen,
    height: u16,
    running: Option<(u16, usize)>,
    start: (u16, u16),
    end: (u16, u16),
    base: usize,
    moves: bool,
) -> (r: DragStep)
    ensures
        r == drag_step(*screen, height, running, start, end, base, moves),
{
    let max: usize = screen.max_scroll_offset();
    let at_top = end.1 == 0;
    let at_bottom = height > 0 && end.1 == height - 1;
    let mut offset: usize = base;
    if moves {
        if at_top {
            let next: usize = base.saturating_add(1);
            offset = if next < max {
                next
            } else {
                max
            };
        } else if at_bottom {
            offset = base.saturating_sub(1);
        }
    }
    let (anchor_col, anchor_abs) = match running {
        Some(a) => a,
        None => (start.0, screen.abs_of_row(base, start.1)),
    };
    DragStep {
        offset,
        anchor_col,
        anchor_abs,
        anchor_row: screen.row_of_abs(offset, anchor_abs, height),
        end_col: end.0,
        end_row: end.1,
        end_abs: screen.abs_of_row(offset, end.1),
        repeat: moves && ((at_top && offset < max) || (at_bottom && offset > 0)),
    }
}

/// A drag that is over, or that may not scroll, leaves the view where it is.
pub proof fn law_a_release_scrolls_nothing(
    screen: Screen,
    height: u16,
    running: Option<(u16, usize)>,
    start: (u16, u16),
    end: (u16, u16),
    base: usize,
)
    ensures
        drag_step(screen, height, running, start, end, base, false).offset == base,
        !drag_step(screen, height, running, start, end, base, false).repeat,
{
}

/// The anchor of a running gesture stays on its line, however far the view scrolls.
pub proof fn law_the_anchor_stays_pinned(
    screen: Screen,
    height: u16,
    anchor: (u16, usize),
    start: (u16, u16),
    end: (u16, u16),
    base: usize,
    moves: bool,
)
    ensures
        ({
            let step = drag_step(screen, height, Some(anchor), start, end, base, moves);
            step.anchor_col == anchor.0 && step.anchor_abs == anchor.1
        }),
{
}

/// What is yanked is what is highlighted: the rows of the highlight show the lines
/// that the two ends stand for, as long as the anchor's line is in view.
pub proof fn law_the_highlight_shows_the_selected_lines(
    screen: Screen,
    running: Option<(u16, usize)>,
    start: (u16, u16),
    end: (u16, u16),
    base: usize,
    moves: bool,
)
    requires
        screen.lines_evicted + screen.total() + screen.rows <= usize::MAX,
        base <= screen.max_offset(),
        end.1 < screen.rows,
        0 <= screen.row_at(
            drag_step(screen, screen.rows, running, start, end, base, moves).offset as int,
            drag_step(screen, screen.rows, running, start, end, base, moves).anchor_abs as int,
        ) < screen.rows,
    ensures
        ({
            let step = drag_step(screen, screen.rows, running, start, end, base, moves);
            &&& screen.abs_row(step.offset as int, step.anchor_row as int) == step.anchor_abs
            &&& screen.abs_row(step.offset as int, step.end_row as int) == step.end_abs
        }),
{
}

/// Edge scrolling comes to an end in all but a single row: as long as it repeats, each further step moves
/// the view by one line, towards a bound.
pub proof fn law_edge_scrolling_stops(
    screen: Screen,
    height: u16,
    running: Option<(u16, usize)>,
    start: (u16, u16),
    end: (u16, u16),
    base: usize,
)
    requires
        drag_step(screen, height, running, start, end, base, true).repeat,
        height != 1,
    ensures
        ({
            let one = drag_step(screen, height, running, start, end, base, true);
            let two = drag_step(screen, height, running, start, end, one.offset, true);
            if end.1 == 0 {
                one.offset < two.offset <= screen.max_offset()
            } else {
                two.offset == one.offset - 1
            }
        }),
{
}

/// Where the view has reached the oldest line, or the live one, the step that got it
/// there is the last, in all but a single row.
pub proof fn law_a_bound_ends_the_scrolling(
    screen: Screen,
    height: u16,
    running: Option<(u16, usize)>,
    start: (u16, u16),
    end: (u16, u16),
    base: usize,
)
    requires
        height != 1,
    ensures
        ({
            let step = drag_step(screen, height, running, start, end, base, true);
            let bound = if end.1 == 0 {
                screen.max_offset()
            } else {
                0
            };
            step.offset == bound ==> !step.repeat
        }),
{
}

} // verus!
