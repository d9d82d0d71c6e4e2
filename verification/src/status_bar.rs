//! The status bar: mode, session, tabs, and what is shown on its right-hand side.

use crate::boxes::BOX_VERTICAL;
use crate::config::{CompositorTheme, TabActivity};
use crate::grid::{area, draw_text, drawn, fill, letter_cells, lettering, looks, row_looks, run};
use crate::hit::{HitRegions, TabRegion};
use crate::protocol::{glyph, CellColor, Look, RenderCell};
use crate::screen::{fit, sub0};
use crate::tab_strip::separator;
use crate::text::{chars_of, decimal, decimal_chars, string_of};
use vstd::prelude::*;

verus! {

/// Information needed to render the status bar.
pub struct StatusInfo {
    /// Current mode name.
    pub mode: String,
    /// Session name or path.
    pub session_name: String,
    /// Name, whether it is the active one, and what happened in it, of each tab.
    pub tabs: Vec<(String, bool, TabActivity)>,
    /// Layout mode name.
    pub layout_mode: String,
    /// Index of the current search match and number of matches, while searching.
    pub search_info: Option<(usize, usize)>,
}

/// A styled run of text on the status bar's right-hand side.
#[derive(Debug, Clone, PartialEq)]
pub struct StatusSegment {
    pub text: String,
    pub fg: CellColor,
    pub bg: CellColor,
    pub bold: bool,
}

// ---------------------------------------------------------------------------
// The right-hand side
// ---------------------------------------------------------------------------

/// A segment as a mathematical value.
#[verifier::ext_equal]
pub struct SegmentView {
    pub text: Seq<char>,
    pub fg: CellColor,
    pub bg: CellColor,
    pub bold: bool,
}

impl View for StatusSegment {
    type V = SegmentView;

    open spec fn view(&self) -> SegmentView {
        SegmentView { text: self.text@, fg: self.fg, bg: self.bg, bold: self.bold }
    }
}

/// The segments of a list.
pub open spec fn segment_views(v: Seq<StatusSegment>) -> Seq<SegmentView> {
    Seq::new(v.len(), |i: int| v[i]@)
}

/// The search counter: ` (3/9) ` for the third of nine matches.
pub open spec fn search_text(current: nat, total: nat) -> Seq<char> {
    seq![' ', '('] + decimal(current + 1) + seq!['/'] + decimal(total) + seq![')', ' ']
}

/// A text with a space on each side.
pub open spec fn padded(s: Seq<char>) -> Seq<char> {
    seq![' '] + s + seq![' ']
}

/// What the bar shows on the right: the search counter while searching, then the
/// layout indicator if there is one.
pub open spec fn right_segments(
    search_info: Option<(usize, usize)>,
    layout_mode: Seq<char>,
    theme: CompositorTheme,
) -> Seq<SegmentView> {
    let search = match search_info {
        Some((current, total)) => seq![
            SegmentView {
                text: search_text(current as nat, total as nat),
                fg: theme.search_count_fg,
                bg: theme.search_count_bg,
                bold: false,
            },
        ],
        None => Seq::empty(),
    };
    if layout_mode.len() == 0 {
        search
    } else {
        search.push(
            SegmentView {
                text: padded(layout_mode),
                fg: theme.layout_indicator_fg,
                bg: theme.layout_indicator_bg,
                bold: false,
            },
        )
    }
}

fn pad(s: &str) -> (r: Vec<char>)
    ensures
        r@ == padded(s@),
{
    let mut r: Vec<char> = Vec::new();
    let mut body = chars_of(s);
    r.push(' ');
    r.append(&mut body);
    r.push(' ');
    assert(r@ =~= padded(s@));
    r
}

/// The status bar's right-hand content: the search counter (when searching)
/// followed by the layout-mode indicator.
pub fn status_right_segments(
    search_info: Option<(usize, usize)>,
    layout_mode: &str,
    theme: &CompositorTheme,
) -> (r: Vec<StatusSegment>)
    ensures
        segment_views(r@) == right_segments(search_info, layout_mode@, *theme),
{
    let mut segments: Vec<StatusSegment> = Vec::new();
    match search_info {
        Some((current, total)) => {
            let mut text: Vec<char> = Vec::new();
            text.push(' ');
            text.push('(');
            let mut shown = decimal_chars(current as u128 + 1);
            text.append(&mut shown);
            text.push('/');
            let mut all = decimal_chars(total as u128);
            text.append(&mut all);
            text.push(')');
            text.push(' ');
            assert(text@ =~= search_text(current as nat, total as nat));
            segments.push(
                StatusSegment {
                    text: string_of(&text),
                    fg: theme.search_count_fg,
                    bg: theme.search_count_bg,
                    bold: false,
                },
            );
        },
        None => {},
    }
    let name = chars_of(layout_mode);
    if name.len() > 0 {
        let text = pad(layout_mode);
        segments.push(
            StatusSegment {
                text: string_of(&text),
                fg: theme.layout_indicator_fg,
                bg: theme.layout_indicator_bg,
                bold: false,
            },
        );
    }
    assert(segment_views(segments@) =~= right_segments(search_info, layout_mode@, *theme));
    segments
}

/// The cells of the first `n` segments, one after the other.
pub open spec fn segment_cells(segments: Seq<SegmentView>, n: int) -> Seq<Look>
    decreases n,
{
    if n <= 0 {
        Seq::empty()
    } else {
        let s = segments[n - 1];
        segment_cells(segments, n - 1) + lettering(s.text, s.fg, s.bg, s.bold)
    }
}

/// A row with `cells` at its right end, before column `cols`. They are left out
/// where they would reach into the first `left_end` columns.
pub open spec fn right_drawn(row: Seq<Look>, cols: int, left_end: int, cells: Seq<Look>) -> Seq<
    Look,
> {
    let start = sub0(cols, cells.len() as int);
    if cells.len() == 0 || start < left_end {
        row
    } else {
        Seq::new(
            row.len(),
            |x: int|
                if start <= x < start + cells.len() && x < cols {
                    cells[x - start]
                } else {
                    row[x]
                },
        )
    }
}

fn all_segment_cells(segments: &Vec<StatusSegment>) -> (r: Vec<RenderCell>)
    ensures
        row_looks(r@) == segment_cells(segment_views(segments@), segments@.len() as int),
{
    let mut r: Vec<RenderCell> = Vec::new();
    let ghost views = segment_views(segments@);
    let mut i: usize = 0;
    assert(row_looks(r@) =~= segment_cells(views, 0));
    while i < segments.len()
        invariant
            i <= segments.len(),
            views == segment_views(segments@),
            row_looks(r@) == segment_cells(views, i as int),
        decreases segments.len() - i,
    {
        let s = &segments[i];
        let chars = chars_of(&s.text);
        let mut cells = letter_cells(&chars, s.fg, s.bg, s.bold);
        let ghost before = r@;
        let ghost added = cells@;
        r.append(&mut cells);
        assert(views[i as int] == s@);
        assert(row_looks(r@) =~= row_looks(before) + row_looks(added));
        i += 1;
    }
    r
}

/// Paint `segments` right-aligned on a row `cols` wide, given that the left-hand
/// content occupies columns `0..left_end`. When the two would overlap, the right
/// side is dropped. Widths are counted in characters.
pub fn draw_right_segments(
    row: &mut Vec<RenderCell>,
    cols: usize,
    left_end: usize,
    segments: &Vec<StatusSegment>,
)
    ensures
        row_looks(final(row)@) == right_drawn(
            row_looks(old(row)@),
            cols as int,
            left_end as int,
            segment_cells(segment_views(segments@), segments@.len() as int),
        ),
{
    let ghost before = row_looks(row@);
    let cells = all_segment_cells(segments);
    let total: usize = cells.len();
    assert(row_looks(cells@).len() == total);
    if total == 0 {
        return;
    }
    let start: usize = cols.saturating_sub(total);
    if start < left_end {
        return;
    }
    let ghost all = row_looks(cells@);
    let mut i: usize = 0;
    while i < total && start + i < cols && start + i < row.len()
        invariant
            i <= total == cells.len(),
            start == sub0(cols as int, total as int),
            start + i <= cols,
            all == row_looks(cells@),
            row.len() == before.len(),
            forall|x: int|
                0 <= x < row.len() ==> (#[trigger] row@[x])@ == (if start <= x < start + i {
                    all[x - start]
                } else {
                    before[x]
                }),
        decreases total - i,
    {
        row.set(start + i, cells[i].clone());
        i += 1;
    }
    assert(row_looks(row@) =~= right_drawn(before, cols as int, left_end as int, all));
}

// ---------------------------------------------------------------------------
// The whole bar
// ---------------------------------------------------------------------------

/// The mark and the color of a background tab that something happened in.
pub open spec fn tab_mark(
    is_active: bool,
    activity: TabActivity,
    theme: CompositorTheme,
) -> Option<(char, CellColor)> {
    if is_active {
        None
    } else {
        match activity {
            TabActivity::Bell => Some(('!', theme.tab_bell_fg)),
            TabActivity::Activity => Some(('\u{25CF}', theme.tab_activity_fg)),
            TabActivity::Silent => Some(('\u{2713}', theme.tab_silent_fg)),
            TabActivity::Quiet => None,
        }
    }
}

/// The label of a tab, with its mark if it has one.
pub open spec fn tab_label(
    name: Seq<char>,
    is_active: bool,
    activity: TabActivity,
    theme: CompositorTheme,
) -> Seq<char> {
    match tab_mark(is_active, activity, theme) {
        Some((mark, _)) => seq![' ', mark, ' '] + name + seq![' '],
        None => padded(name),
    }
}

/// The cells of the label of a tab.
pub open spec fn tab_label_cells(
    name: Seq<char>,
    is_active: bool,
    activity: TabActivity,
    theme: CompositorTheme,
) -> Seq<Look> {
    let text = tab_label(name, is_active, activity, theme);
    if is_active {
        lettering(text, theme.tab_active_fg, theme.tab_active_bg, true)
    } else {
        match tab_mark(is_active, activity, theme) {
            Some((_, fg)) => lettering(text, fg, theme.status_bar_bg, true),
            None => lettering(text, theme.tab_inactive_fg, theme.status_bar_bg, false),
        }
    }
}

/// The column after the separator and the label of tab `i`, when it starts at `x`.
pub open spec fn label_start(i: int, x: int) -> int {
    if i > 0 {
        fit(x + 3)
    } else {
        x
    }
}

/// The column at which the first `n` tabs end, when they start at column `x`.
pub open spec fn tabs_end(
    tabs: Seq<(String, bool, TabActivity)>,
    n: int,
    x: int,
    theme: CompositorTheme,
) -> int
    decreases n,
{
    if n <= 0 {
        x
    } else {
        let t = tabs[n - 1];
        fit(
            label_start(n - 1, tabs_end(tabs, n - 1, x, theme)) + tab_label(
                t.0@,
                t.1,
                t.2,
                theme,
            ).len(),
        )
    }
}

/// The grid with the first `n` tabs drawn from column `x` of row `row`.
pub open spec fn tabs_drawn(
    g: Seq<Seq<Look>>,
    row: int,
    cols: int,
    tabs: Seq<(String, bool, TabActivity)>,
    n: int,
    x: int,
    theme: CompositorTheme,
) -> Seq<Seq<Look>>
    decreases n,
{
    if n <= 0 {
        g
    } else {
        let before = tabs_drawn(g, row, cols, tabs, n - 1, x, theme);
        let from = tabs_end(tabs, n - 1, x, theme);
        let t = tabs[n - 1];
        let parted = if n > 1 {
            drawn(
                before,
                run(
                    row,
                    from,
                    cols,
                    lettering(separator(), theme.separator_fg, theme.status_bar_bg, false),
                ),
            )
        } else {
            before
        };
        drawn(
            parted,
            run(row, label_start(n - 1, from), cols, tab_label_cells(t.0@, t.1, t.2, theme)),
        )
    }
}

/// The clickable regions of the tabs.
pub open spec fn tab_regions(
    tabs: Seq<(String, bool, TabActivity)>,
    x: int,
    row: int,
    theme: CompositorTheme,
) -> Seq<TabRegion> {
    Seq::new(
        tabs.len(),
        |i: int|
            TabRegion {
                x_start: label_start(i, tabs_end(tabs, i, x, theme)) as u16,
                x_end: tabs_end(tabs, i + 1, x, theme) as u16,
                y: row as u16,
                tab_index: i as usize,
            },
    )
}

/// The mode indicator.
pub open spec fn mode_text(mode: Seq<char>) -> Seq<char> {
    seq![' ', '['] + mode + seq![']', ' ']
}

/// The column at which the session name ends.
pub open spec fn session_end(mode: Seq<char>, session: Seq<char>) -> int {
    fit(fit(mode_text(mode).len() as int) + padded(session).len())
}

/// The column at which the tabs start: after a separator where there is room for it.
pub open spec fn tabs_start(
    mode: Seq<char>,
    session: Seq<char>,
    cols: int,
    row_len: int,
) -> int {
    let x = session_end(mode, session);
    if x < cols && x < row_len {
        x + 1
    } else {
        x
    }
}

/// The bar without its tabs and its right-hand side.
pub open spec fn bar_head(
    g: Seq<Seq<Look>>,
    row: int,
    cols: int,
    mode: Seq<char>,
    session: Seq<char>,
    theme: CompositorTheme,
) -> Seq<Seq<Look>> {
    let back = glyph(' ', theme.status_bar_fg, theme.status_bar_bg, false);
    let filled = drawn(g, area(0, cols, row, row + 1, back));
    let (fg, bg) = theme.colors_of(mode);
    let with_mode = drawn(filled, run(row, 0, cols, lettering(mode_text(mode), fg, bg, true)));
    let with_session = drawn(
        with_mode,
        run(
            row,
            fit(mode_text(mode).len() as int),
            cols,
            lettering(padded(session), theme.session_name_fg, theme.status_bar_bg, false),
        ),
    );
    drawn(
        with_session,
        run(
            row,
            session_end(mode, session),
            cols,
            lettering(seq![BOX_VERTICAL], theme.separator_fg, theme.status_bar_bg, false),
        ),
    )
}

/// The grid with the status bar on row `row`.
pub open spec fn bar_drawn(
    g: Seq<Seq<Look>>,
    row: int,
    cols: int,
    info: StatusInfo,
    theme: CompositorTheme,
) -> Seq<Seq<Look>> {
    let head = bar_head(g, row, cols, info.mode@, info.session_name@, theme);
    let x = tabs_start(info.mode@, info.session_name@, cols, g[row].len() as int);
    let tabs = info.tabs@;
    let n = tabs.len() as int;
    let with_tabs = tabs_drawn(head, row, cols, tabs, n, x, theme);
    let right = right_segments(info.search_info, info.layout_mode@, theme);
    with_tabs.update(
        row,
        right_drawn(
            with_tabs[row],
            cols,
            tabs_end(tabs, n, x, theme),
            segment_cells(right, right.len() as int),
        ),
    )
}

proof fn lemma_tabs_shape(
    g: Seq<Seq<Look>>,
    row: int,
    cols: int,
    tabs: Seq<(String, bool, TabActivity)>,
    n: int,
    x: int,
    theme: CompositorTheme,
)
    ensures
        tabs_drawn(g, row, cols, tabs, n, x, theme).len() == g.len(),
        forall|y: int|
            0 <= y < g.len() ==> (#[trigger] tabs_drawn(g, row, cols, tabs, n, x, theme)[y]).len()
                == g[y].len(),
    decreases n,
{
    if n > 0 {
        lemma_tabs_shape(g, row, cols, tabs, n - 1, x, theme);
    }
}

/// The status bar changes nothing above its own row, and the shape of no row.
pub proof fn law_the_bar_stays_on_its_row(
    g: Seq<Seq<Look>>,
    row: int,
    cols: int,
    info: StatusInfo,
    theme: CompositorTheme,
    y: int,
)
    requires
        0 <= row < g.len(),
        0 <= y < g.len(),
    ensures
        bar_drawn(g, row, cols, info, theme).len() == g.len(),
        bar_drawn(g, row, cols, info, theme)[y].len() == g[y].len(),
        y != row ==> bar_drawn(g, row, cols, info, theme)[y] == g[y],
{
    let head = bar_head(g, row, cols, info.mode@, info.session_name@, theme);
    let x = tabs_start(info.mode@, info.session_name@, cols, g[row].len() as int);
    lemma_tabs_shape(head, row, cols, info.tabs@, info.tabs@.len() as int, x, theme);
    if y != row {
        assert(head[y] =~= g[y]);
        lemma_tabs_row(head, row, cols, info.tabs@, info.tabs@.len() as int, x, theme, y);
    }
}

proof fn lemma_tabs_row(
    g: Seq<Seq<Look>>,
    row: int,
    cols: int,
    tabs: Seq<(String, bool, TabActivity)>,
    n: int,
    x: int,
    theme: CompositorTheme,
    y: int,
)
    requires
        0 <= y < g.len(),
        y != row,
    ensures
        tabs_drawn(g, row, cols, tabs, n, x, theme)[y] == g[y],
    decreases n,
{
    lemma_tabs_shape(g, row, cols, tabs, n, x, theme);
    if n > 0 {
        lemma_tabs_row(g, row, cols, tabs, n - 1, x, theme, y);
        assert(tabs_drawn(g, row, cols, tabs, n, x, theme)[y] =~= tabs_drawn(
            g,
            row,
            cols,
            tabs,
            n - 1,
            x,
            theme,
        )[y]);
    }
}

/// The mark and the color of a background tab.
fn mark_of(is_active: bool, activity: TabActivity, theme: &CompositorTheme) -> (r: Option<
    (char, CellColor),
>)
    ensures
        r == tab_mark(is_active, activity, *theme),
{
    if is_active {
        None
    } else {
        match activity {
            TabActivity::Bell => Some(('!', theme.tab_bell_fg)),
            TabActivity::Activity => Some(('\u{25CF}', theme.tab_activity_fg)),
            TabActivity::Silent => Some(('\u{2713}', theme.tab_silent_fg)),
            TabActivity::Quiet => None,
        }
    }
}

/// The label of a tab.
fn label_of(name: &str, is_active: bool, activity: TabActivity, theme: &CompositorTheme) -> (r: Vec<
    char,
>)
    ensures
        r@ == tab_label(name@, is_active, activity, *theme),
{
    match mark_of(is_active, activity, theme) {
        Some((mark, _)) => {
            let mut r: Vec<char> = Vec::new();
            let mut body = chars_of(name);
            r.push(' ');
            r.push(mark);
            r.push(' ');
            r.append(&mut body);
            r.push(' ');
            assert(r@ =~= tab_label(name@, is_active, activity, *theme));
            r
        },
        None => pad(name),
    }
}

/// Draw the tabs of the bar from column `x` on and add their clickable regions.
/// Returns the column at which they end.
fn draw_tabs(
    buffer: &mut Vec<Vec<RenderCell>>,
    row: usize,
    cols: usize,
    tabs: &Vec<(String, bool, TabActivity)>,
    x0: usize,
    regions: &mut Vec<TabRegion>,
    theme: &CompositorTheme,
) -> (r: usize)
    ensures
        looks(final(buffer)@) == tabs_drawn(
            looks(old(buffer)@),
            row as int,
            cols as int,
            tabs@,
            tabs@.len() as int,
            x0 as int,
            *theme,
        ),
        final(regions)@ == old(regions)@ + tab_regions(tabs@, x0 as int, row as int, *theme),
        r == tabs_end(tabs@, tabs@.len() as int, x0 as int, *theme),
{
    let ghost g = looks(buffer@);
    let ghost before = regions@;
    let ghost all = tab_regions(tabs@, x0 as int, row as int, *theme);
    let mut x: usize = x0;
    let mut i: usize = 0;
    assert(regions@ =~= before + all.take(0));
    while i < tabs.len()
        invariant
            i <= tabs.len(),
            all == tab_regions(tabs@, x0 as int, row as int, *theme),
            regions@ == before + all.take(i as int),
            x == tabs_end(tabs@, i as int, x0 as int, *theme),
            looks(buffer@) == tabs_drawn(
                g,
                row as int,
                cols as int,
                tabs@,
                i as int,
                x0 as int,
                *theme,
            ),
        decreases tabs.len() - i,
    {
        if i > 0 {
            let mut sep: Vec<char> = Vec::new();
            sep.push(' ');
            sep.push('|');
            sep.push(' ');
            assert(sep@ =~= separator());
            draw_text(
                buffer,
                row,
                x,
                cols,
                &sep,
                theme.separator_fg,
                theme.status_bar_bg,
                false,
            );
            x = x.saturating_add(3);
        }
        let tab = &tabs[i];
        let label = label_of(&tab.0, tab.1, tab.2, theme);
        let mark = mark_of(tab.1, tab.2, theme);
        let (fg, bg, bold) = if tab.1 {
            (theme.tab_active_fg, theme.tab_active_bg, true)
        } else {
            match mark {
                Some((_, mark_fg)) => (mark_fg, theme.status_bar_bg, true),
                None => (theme.tab_inactive_fg, theme.status_bar_bg, false),
            }
        };
        draw_text(buffer, row, x, cols, &label, fg, bg, bold);
        let start: usize = x;
        x = x.saturating_add(label.len());
        regions.push(
            TabRegion { x_start: start as u16, x_end: x as u16, y: row as u16, tab_index: i },
        );
        i += 1;
        assert(regions@ =~= before + all.take(i as int));
    }
    assert(all.take(i as int) =~= all);
    x
}

/// Draw the status bar on the last of `rows` rows, if the grid has that row.
pub fn draw_status_bar(
    buffer: &mut Vec<Vec<RenderCell>>,
    cols: u16,
    rows: u16,
    info: &StatusInfo,
    hit_regions: &mut HitRegions,
    theme: &CompositorTheme,
)
    ensures
        final(hit_regions).stack_regions@ == old(hit_regions).stack_regions@,
        ({
            let row = sub0(rows as int, 1);
            let g = looks(old(buffer)@);
            if row < g.len() {
                &&& looks(final(buffer)@) == bar_drawn(g, row, cols as int, *info, *theme)
                &&& final(hit_regions).tab_regions@ == old(hit_regions).tab_regions@ + tab_regions(
                    info.tabs@,
                    tabs_start(
                        info.mode@,
                        info.session_name@,
                        cols as int,
                        g[row].len() as int,
                    ),
                    row,
                    *theme,
                )
            } else {
                &&& looks(final(buffer)@) == g
                &&& final(hit_regions).tab_regions@ == old(hit_regions).tab_regions@
            }
        }),
{
    let row: usize = (rows as usize).saturating_sub(1);
    if row >= buffer.len() {
        return;
    }
    let ghost g = looks(buffer@);
    let width: usize = buffer[row].len();
    let cols: usize = cols as usize;
    let back = RenderCell::styled(' ', theme.status_bar_fg, theme.status_bar_bg, false);
    fill(buffer, 0, cols, row, row + 1, &back);
    let mut mode: Vec<char> = Vec::new();
    let mut mode_name = chars_of(&info.mode);
    mode.push(' ');
    mode.push('[');
    mode.append(&mut mode_name);
    mode.push(']');
    mode.push(' ');
    assert(mode@ =~= mode_text(info.mode@));
    let (mode_fg, mode_bg) = theme.mode_colors(&info.mode);
    draw_text(buffer, row, 0, cols, &mode, mode_fg, mode_bg, true);
    let mut x: usize = mode.len();
    let session = pad(&info.session_name);
    draw_text(
        buffer,
        row,
        x,
        cols,
        &session,
        theme.session_name_fg,
        theme.status_bar_bg,
        false,
    );
    x = x.saturating_add(session.len());
    let mut bar: Vec<char> = Vec::new();
    bar.push(BOX_VERTICAL);
    assert(bar@ =~= seq![BOX_VERTICAL]);
    draw_text(buffer, row, x, cols, &bar, theme.separator_fg, theme.status_bar_bg, false);
    if x < cols && x < width {
        x += 1;
    }
    let ghost head = looks(buffer@);
    assert(g[row as int].len() == width);
    assert(head == bar_head(
        g,
        row as int,
        cols as int,
        info.mode@,
        info.session_name@,
        *theme,
    ));
    let ghost x1 = x as int;
    x =
    draw_tabs(buffer, row, cols, &info.tabs, x, &mut hit_regions.tab_regions, theme);
    let segments = status_right_segments(info.search_info, &info.layout_mode, theme);
    let ghost with_tabs = looks(buffer@);
    proof {
        lemma_tabs_shape(
            head,
            row as int,
            cols as int,
            info.tabs@,
            info.tabs@.len() as int,
            x1,
            *theme,
        );
        assert(with_tabs.len() == g.len());
    }
    draw_right_segments(&mut buffer[row], cols, x, &segments);
    proof {
        let right = right_segments(info.search_info, info.layout_mode@, *theme);
        assert(segment_views(segments@).len() == segments@.len());
        let want = bar_drawn(g, row as int, cols as int, *info, *theme);
        assert(looks(buffer@) =~= want);
    }
}

} // verus!
