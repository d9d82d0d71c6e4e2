//! What can be read on the status bar, and where its tabs are clicked.

use crate::config::{CompositorTheme, TabActivity};
use crate::protocol::Look;
use crate::status_bar::{
    bar_drawn, bar_head, label_start, padded, right_drawn, right_segments, segment_cells, tab_label,
    tab_label_cells, tab_regions, tabs_drawn, tabs_end, tabs_start, StatusInfo,
};
use crate::tab_strip::{centered, shown_names, strip, strip_cells, StripColors};
use crate::text::decimal;
use vstd::prelude::*;

verus! {

/// Tabs are drawn from their first column on, and keep the shape of the grid.
proof fn lemma_tabs_begin(
    g: Seq<Seq<Look>>,
    row: int,
    cols: int,
    tabs: Seq<(String, bool, TabActivity)>,
    n: int,
    x: int,
    theme: CompositorTheme,
    c: int,
)
    requires
        0 <= row < g.len(),
        0 <= c < g[row].len(),
        0 <= n <= tabs.len(),
        0 <= x <= usize::MAX,
    ensures
        x <= tabs_end(tabs, n, x, theme) <= usize::MAX,
        tabs_drawn(g, row, cols, tabs, n, x, theme).len() == g.len(),
        tabs_drawn(g, row, cols, tabs, n, x, theme)[row].len() == g[row].len(),
        c < x ==> tabs_drawn(g, row, cols, tabs, n, x, theme)[row][c] == g[row][c],
    decreases n,
{
    if n > 0 {
        lemma_tabs_begin(g, row, cols, tabs, n - 1, x, theme, c);
    }
}

proof fn lemma_ends_grow(
    tabs: Seq<(String, bool, TabActivity)>,
    i: int,
    n: int,
    x: int,
    theme: CompositorTheme,
)
    requires
        0 <= i <= n <= tabs.len(),
        0 <= x <= usize::MAX,
    ensures
        x <= tabs_end(tabs, i, x, theme) <= tabs_end(tabs, n, x, theme) <= usize::MAX,
    decreases n,
{
    if n > i {
        lemma_ends_grow(tabs, i, n - 1, x, theme);
    } else if n > 0 {
        lemma_ends_grow(tabs, i - 1, n - 1, x, theme);
    }
}

/// The label of a tab stays as it was drawn when the tabs behind it are drawn.
proof fn lemma_label_stays(
    g: Seq<Seq<Look>>,
    row: int,
    cols: int,
    tabs: Seq<(String, bool, TabActivity)>,
    i: int,
    n: int,
    x: int,
    theme: CompositorTheme,
    c: int,
)
    requires
        0 <= row < g.len(),
        0 <= c < g[row].len(),
        0 <= i < n <= tabs.len(),
        0 <= x,
        tabs_end(tabs, n, x, theme) < usize::MAX,
        x <= usize::MAX,
        c < cols,
        label_start(i, tabs_end(tabs, i, x, theme)) <= c < tabs_end(tabs, i + 1, x, theme),
    ensures
        tabs_drawn(g, row, cols, tabs, n, x, theme)[row][c] == tab_label_cells(
            tabs[i].0@,
            tabs[i].1,
            tabs[i].2,
            theme,
        )[c - label_start(i, tabs_end(tabs, i, x, theme))],
    decreases n,
{
    lemma_ends_grow(tabs, i + 1, n, x, theme);
    lemma_ends_grow(tabs, n - 1, n, x, theme);
    lemma_tabs_begin(g, row, cols, tabs, n - 1, x, theme, c);
    if n > i + 1 {
        lemma_ends_grow(tabs, i + 1, n - 1, x, theme);
        lemma_label_stays(g, row, cols, tabs, i, n - 1, x, theme, c);
    }
}

/// The bar begins with the mode in brackets, in the colors of the mode, and the name of the
/// session, each with a blank on either side; what does not fit is cut off at the edge.
pub proof fn law_the_bar_begins_with_mode_and_session(
    g: Seq<Seq<Look>>,
    row: int,
    cols: int,
    info: StatusInfo,
    theme: CompositorTheme,
    c: int,
)
    requires
        0 <= row < g.len(),
        g[row].len() == cols,
        0 <= c < cols,
        info.mode@.len() + info.session_name@.len() + 6 < usize::MAX,
        c < info.mode@.len() + info.session_name@.len() + 6,
    ensures
        ({
            let mode = info.mode@;
            let session = info.session_name@;
            let here = bar_drawn(g, row, cols, info, theme)[row][c];
            let m = mode.len() as int;
            let k = session.len() as int;
            &&& c == 0 || c == m + 3 || c == m + 4 || c == m + k + 5 ==> here.c == ' '
            &&& c == 1 ==> here.c == '['
            &&& 2 <= c < m + 2 ==> here.c == mode[c - 2]
            &&& c == m + 2 ==> here.c == ']'
            &&& m + 5 <= c < m + k + 5 ==> here.c == session[c - m - 5]
            &&& c < m + 4 ==> here.fg == theme.colors_of(mode).0 && here.bg == theme.colors_of(
                mode,
            ).1
            &&& c >= m + 4 ==> here.fg == theme.session_name_fg && here.bg == theme.status_bar_bg
        }),
{
    let mode = info.mode@;
    let session = info.session_name@;
    let head = bar_head(g, row, cols, mode, session, theme);
    let x = tabs_start(mode, session, cols, g[row].len() as int);
    let tabs = info.tabs@;
    lemma_tabs_begin(head, row, cols, tabs, tabs.len() as int, x, theme, c);
}

/// The label of every tab can be read where the tab is clicked: a blank, the name and a
/// blank, with a mark in front of the name where something happened in the background. The
/// shown tab has its own colors and never a mark.
pub proof fn law_a_tab_is_read_where_it_is_clicked(
    g: Seq<Seq<Look>>,
    row: int,
    cols: int,
    info: StatusInfo,
    theme: CompositorTheme,
    i: int,
    k: int,
)
    requires
        0 <= row < g.len(),
        row <= u16::MAX,
        g[row].len() == cols,
        cols <= u16::MAX,
        0 <= i < info.tabs@.len(),
        ({
            let x = tabs_start(info.mode@, info.session_name@, cols, cols);
            &&& tabs_end(info.tabs@, info.tabs@.len() as int, x, theme) <= u16::MAX
            &&& 0 <= k
            &&& tab_regions(info.tabs@, x, row, theme)[i].x_start + k < tab_regions(
                info.tabs@,
                x,
                row,
                theme,
            )[i].x_end
            &&& tab_regions(info.tabs@, x, row, theme)[i].x_start + k < cols
        }),
    ensures
        ({
            let x = tabs_start(info.mode@, info.session_name@, cols, cols);
            let place = tab_regions(info.tabs@, x, row, theme)[i];
            let (name, shown, activity) = info.tabs@[i];
            let here = bar_drawn(g, row, cols, info, theme)[row][place.x_start + k];
            let n = name@.len() as int;
            let marked = !shown && activity != TabActivity::Quiet;
            let lead = if marked {
                3int
            } else {
                1
            };
            &&& place.tab_index == i && place.y == row
            &&& place.x_end - place.x_start == lead + n + 1
            &&& k == 0 || k == lead + n ==> here.c == ' '
            &&& lead <= k < lead + n ==> here.c == name@[k - lead]
            &&& marked && k == 1 ==> here.c == (match activity {
                TabActivity::Bell => '!',
                TabActivity::Activity => '\u{25CF}',
                _ => '\u{2713}',
            })
            &&& shown ==> here.fg == theme.tab_active_fg && here.bg == theme.tab_active_bg
            &&& !shown ==> here.bg == theme.status_bar_bg && here.fg == (match activity {
                TabActivity::Quiet => theme.tab_inactive_fg,
                TabActivity::Bell => theme.tab_bell_fg,
                TabActivity::Activity => theme.tab_activity_fg,
                TabActivity::Silent => theme.tab_silent_fg,
            })
        }),
{
    let mode = info.mode@;
    let session = info.session_name@;
    let head = bar_head(g, row, cols, mode, session, theme);
    let x = tabs_start(mode, session, cols, cols);
    let tabs = info.tabs@;
    let n = tabs.len() as int;
    lemma_ends_grow(tabs, i, n, x, theme);
    lemma_ends_grow(tabs, i + 1, n, x, theme);
    lemma_ends_grow(tabs, i, i + 1, x, theme);
    let place = tab_regions(tabs, x, row, theme)[i];
    let c = place.x_start + k;
    lemma_tabs_begin(head, row, cols, tabs, n, x, theme, c);
    lemma_label_stays(head, row, cols, tabs, i, n, x, theme, c);
    assert(info.tabs.len() == n);
    let (name, shown, activity) = tabs[i];
    let label = tab_label(name@, shown, activity, theme);
    let cells = tab_label_cells(name@, shown, activity, theme);
    assert(cells.len() == label.len());
    let with_tabs = tabs_drawn(head, row, cols, tabs, n, x, theme);
    assert(bar_drawn(g, row, cols, info, theme)[row][c] == with_tabs[row][c]);
    assert(with_tabs[row][c] == cells[k]);
    assert(cells[k].c == label[k]);
}

/// Three columns lie between two tabs, so that no place is on both.
pub proof fn law_tabs_of_the_bar_lie_apart(
    tabs: Seq<(String, bool, TabActivity)>,
    x: int,
    row: int,
    theme: CompositorTheme,
    i: int,
)
    requires
        0 <= i < tabs.len() - 1,
        0 <= x,
        tabs_end(tabs, tabs.len() as int, x, theme) <= u16::MAX,
        x <= usize::MAX,
    ensures
        ({
            let p = tab_regions(tabs, x, row, theme);
            &&& p[i].x_end + 3 == p[i + 1].x_start
            &&& p[0].x_start == x
        }),
{
    let n = tabs.len() as int;
    lemma_ends_grow(tabs, i + 1, n, x, theme);
    lemma_ends_grow(tabs, i + 2, n, x, theme);
    lemma_ends_grow(tabs, 0, n, x, theme);
}

/// What stands on the right of the bar ends at its edge: the layout last, and the search
/// counter, which counts from one, before it. It is left out where it would run into the
/// tabs.
pub proof fn law_the_right_side_ends_at_the_edge(
    row: Seq<Look>,
    cols: int,
    left_end: int,
    search: Option<(usize, usize)>,
    layout: Seq<char>,
    theme: CompositorTheme,
    c: int,
)
    requires
        row.len() == cols,
        0 <= c < cols,
        layout.len() > 0,
        0 < left_end,
    ensures
        ({
            let right = right_segments(search, layout, theme);
            let cells = segment_cells(right, right.len() as int);
            let now = right_drawn(row, cols, left_end, cells);
            let counter = match search {
                Some((at, of)) => seq![' ', '('] + decimal((at + 1) as nat) + seq!['/'] + decimal(
                    of as nat,
                ) + seq![')', ' '],
                None => Seq::empty(),
            };
            let text = counter + seq![' '] + layout + seq![' '];
            let start = cols - text.len();
            if start < left_end {
                now[c] == row[c]
            } else if c < start {
                now[c] == row[c]
            } else {
                now[c].c == text[c - start]
            }
        }),
{
    let right = right_segments(search, layout, theme);
    reveal_with_fuel(segment_cells, 3);
    let cells = segment_cells(right, right.len() as int);
    let counter = match search {
        Some((at, of)) => seq![' ', '('] + decimal((at + 1) as nat) + seq!['/'] + decimal(
            of as nat,
        ) + seq![')', ' '],
        None => Seq::empty(),
    };
    let text = counter + seq![' '] + layout + seq![' '];
    assert(padded(layout).len() == layout.len() + 2);
    assert(cells.len() == text.len());
    assert forall|k: int| 0 <= k < cells.len() implies (#[trigger] cells[k]).c == text[k] by {}
}

/// A name in a tab stands in the middle, with as many blanks before it as behind it or one
/// less; one that is too long is cut off at its end.
pub proof fn law_a_name_is_centered(name: Seq<char>, width: int, k: int)
    requires
        0 <= k < width,
    ensures
        ({
            let text = centered(name, width);
            let free = width - name.len();
            let lead = if free > 0 {
                free / 2
            } else {
                0
            };
            &&& text.len() == width
            &&& lead <= k < lead + name.len() ==> text[k] == name[k - lead]
            &&& k < lead || k >= lead + name.len() ==> text[k] == ' '
        }),
{
}

/// A stack shows the names of its panes, and the number of a pane that has none.
pub proof fn law_a_pane_without_a_name_shows_its_number(
    names: Seq<Seq<char>>,
    ids: Seq<u64>,
    i: int,
)
    requires
        0 <= i < names.len() <= ids.len(),
    ensures
        shown_names(names, ids).len() == names.len(),
        names[i].len() > 0 ==> shown_names(names, ids)[i] == names[i],
        names[i].len() == 0 ==> shown_names(names, ids)[i] == decimal(ids[i] as nat),
{
}

/// The active tab of a stack, and no other, has the active colors and is bold.
pub proof fn law_the_active_tab_stands_out(
    names: Seq<Seq<char>>,
    width: int,
    style: crate::config::BorderStyle,
    active: int,
    colors: StripColors,
    i: int,
    k: int,
)
    requires
        0 <= width <= usize::MAX,
        names.len() <= usize::MAX,
        0 <= i < strip(names, width, style).len(),
        0 <= k < strip(names, width, style)[i].end - strip(names, width, style)[i].start,
    ensures
        ({
            let places = strip(names, width, style);
            let row = strip_cells(places, places.len() as int, names, active, colors);
            let here = row[places[i].start + k];
            let w = places[i].end - places[i].start;
            let free = w - names[i].len();
            let lead = if free > 0 {
                free / 2
            } else {
                0
            };
            &&& i == active ==> here.fg == colors.active_fg && here.bg == colors.active_bg
                && here.bold
            &&& i != active ==> here.fg == colors.inactive_fg && here.bg == colors.inactive_bg
                && !here.bold
            &&& lead <= k < lead + names[i].len() ==> here.c == names[i][k - lead]
        }),
{
    let places = strip(names, width, style);
    crate::tab_strip::law_tabs_are_in_order_and_within_the_strip(names, width, style, i);
    crate::tab_strip::law_a_tab_is_painted_where_it_is_clicked(
        names,
        width,
        style,
        active,
        colors,
        i,
        k,
    );
    law_a_name_is_centered(names[i], places[i].end - places[i].start, k);
}

} // verus!
