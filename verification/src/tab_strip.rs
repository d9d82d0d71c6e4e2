//! Tab strips: where each tab of a stack lands, how the strip is painted, and which
//! columns can be clicked.

use crate::config::{BorderStyle, CompositorTheme};
use crate::grid::{
    area, draw_run, drawn, fill, letter_cells, lettering, looks, row_looks, run,
};
use crate::hit::{HitRegions, StackRegion};
use crate::layout::{texts, PaneId, Rect};
use crate::protocol::{glyph, CellColor, Look, RenderCell};
use crate::text::{chars_of, decimal, decimal_string};
use vstd::prelude::*;

verus! {

/// Columns of the separator between two tabs.
pub const SEPARATOR_WIDTH: usize = 3;

/// One tab's placement in a tab strip: the tab's index and the columns
/// `start..end` it occupies, relative to the strip's own left edge.
#[derive(Debug, Clone, Copy, PartialEq, Eq, Structural)]
pub struct TabStripEntry {
    pub index: usize,
    pub start: usize,
    pub end: usize,
}

// ---------------------------------------------------------------------------
// Names and placement
// ---------------------------------------------------------------------------

/// The names that a strip shows: each pane's name, or its id where that is empty.
pub open spec fn shown_names(names: Seq<Seq<char>>, ids: Seq<PaneId>) -> Seq<Seq<char>> {
    Seq::new(
        names.len(),
        |i: int|
            if names[i].len() > 0 {
                names[i]
            } else if i < ids.len() {
                decimal(ids[i] as nat)
            } else {
                Seq::empty()
            },
    )
}

/// The length of the longest name.
pub open spec fn longest(names: Seq<Seq<char>>) -> nat
    decreases names.len(),
{
    if names.len() == 0 {
        0
    } else {
        let rest = longest(names.drop_last());
        if names.last().len() > rest {
            names.last().len()
        } else {
            rest
        }
    }
}

/// The width of every tab: the longest name and a column on each side, at most the
/// whole strip.
pub open spec fn strip_tab_width(names: Seq<Seq<char>>, width: int) -> int {
    if names.len() == 0 {
        0
    } else if longest(names) + 2 < width {
        longest(names) as int + 2
    } else {
        width
    }
}

/// Columns before the first tab: one in a border that holds several tabs.
pub open spec fn lead(style: BorderStyle, tabs: nat) -> int {
    if style is ZellijStyle && tabs > 1 {
        1
    } else {
        0
    }
}

/// The first column of tab `i` in a strip of unlimited width.
pub open spec fn tab_start(i: nat, tab_width: int, lead: int) -> int
    decreases i,
{
    if i == 0 {
        lead
    } else {
        tab_start((i - 1) as nat, tab_width, lead) + tab_width + SEPARATOR_WIDTH
    }
}

/// How many of `tabs` tabs start within the strip.
pub open spec fn tabs_shown(tabs: nat, tab_width: int, lead: int, width: int) -> nat
    decreases tabs,
{
    if tabs == 0 {
        0
    } else if tab_start((tabs - 1) as nat, tab_width, lead) < width {
        tabs
    } else {
        tabs_shown((tabs - 1) as nat, tab_width, lead, width)
    }
}

/// The place of tab `i`, clipped at the right edge of the strip.
pub open spec fn tab_place(i: int, tab_width: int, lead: int, width: int) -> TabStripEntry {
    let start = tab_start(i as nat, tab_width, lead);
    TabStripEntry {
        index: i as usize,
        start: start as usize,
        end: (if start + tab_width < width {
            start + tab_width
        } else {
            width
        }) as usize,
    }
}

/// The places of all tabs that are shown.
pub open spec fn strip(names: Seq<Seq<char>>, width: int, style: BorderStyle) -> Seq<
    TabStripEntry,
> {
    let tab_width = strip_tab_width(names, width);
    let lead = lead(style, names.len());
    if tab_width <= 0 {
        Seq::empty()
    } else {
        Seq::new(
            tabs_shown(names.len(), tab_width, lead, width),
            |i: int| tab_place(i, tab_width, lead, width),
        )
    }
}

proof fn lemma_start_grows(i: nat, j: nat, tab_width: int, lead: int)
    requires
        i <= j,
        tab_width >= 0,
    ensures
        tab_start(i, tab_width, lead) + (j - i) <= tab_start(j, tab_width, lead),
    decreases j,
{
    if i < j {
        lemma_start_grows(i, (j - 1) as nat, tab_width, lead);
    }
}

/// If tab `n` is the first one that starts beyond the strip, `n` tabs are shown.
proof fn lemma_tabs_shown(tabs: nat, n: nat, tab_width: int, lead: int, width: int)
    requires
        n <= tabs,
        tab_width >= 0,
        n > 0 ==> tab_start((n - 1) as nat, tab_width, lead) < width,
        n < tabs ==> tab_start(n, tab_width, lead) >= width,
    ensures
        tabs_shown(tabs, tab_width, lead, width) == n,
    decreases tabs,
{
    if tabs > n {
        lemma_start_grows(n, (tabs - 1) as nat, tab_width, lead);
        lemma_tabs_shown((tabs - 1) as nat, n, tab_width, lead, width);
    }
}

/// What is known of every shown tab.
pub(crate) proof fn lemma_strip(names: Seq<Seq<char>>, width: int, style: BorderStyle)
    requires
        0 <= width <= usize::MAX,
        names.len() <= usize::MAX,
    ensures
        ({
            let s = strip(names, width, style);
            &&& s.len() <= names.len()
            &&& forall|i: int|
                0 <= i < s.len() ==> {
                    &&& (#[trigger] s[i]).index == i
                    &&& s[i].start < s[i].end <= width
                }
            &&& forall|i: int|
                0 <= i < s.len() && i + 1 < s.len() ==> (#[trigger] s[i]).end + SEPARATOR_WIDTH
                    == s[i + 1].start
            &&& s.len() > 0 ==> s[0].start == lead(style, names.len())
        }),
{
    let w = strip_tab_width(names, width);
    let l = lead(style, names.len());
    if w > 0 {
        let n = tabs_shown(names.len(), w, l, width);
        lemma_shown_bound(names.len(), w, l, width);
        let s = strip(names, width, style);
        assert forall|i: int| 0 <= i < s.len() implies {
            &&& (#[trigger] s[i]).index == i
            &&& s[i].start < s[i].end <= width
        } by {
            lemma_start_grows(i as nat, (n - 1) as nat, w, l);
            lemma_start_grows(0, i as nat, w, l);
        }
        assert forall|i: int| 0 <= i < s.len() && i + 1 < s.len() implies (#[trigger] s[i]).end
            + SEPARATOR_WIDTH == s[i + 1].start by {
            lemma_start_grows((i + 1) as nat, (n - 1) as nat, w, l);
            lemma_start_grows(0, i as nat, w, l);
            assert(s[i + 1] == tab_place(i + 1, w, l, width));
            assert(tab_start((i + 1) as nat, w, l) == tab_start(i as nat, w, l) + w
                + SEPARATOR_WIDTH);
        }
    }
}

proof fn lemma_shown_bound(tabs: nat, tab_width: int, lead: int, width: int)
    ensures
        tabs_shown(tabs, tab_width, lead, width) <= tabs,
        tabs_shown(tabs, tab_width, lead, width) > 0 ==> tab_start(
            (tabs_shown(tabs, tab_width, lead, width) - 1) as nat,
            tab_width,
            lead,
        ) < width,
    decreases tabs,
{
    if tabs > 0 {
        lemma_shown_bound((tabs - 1) as nat, tab_width, lead, width);
    }
}

/// The display name of each tab in a strip: the pane's name, or its id when the
/// name is empty.
pub fn display_tab_names(names: &[String], pane_ids: &[PaneId]) -> (r: Vec<String>)
    ensures
        texts(r@) == shown_names(texts(names@), pane_ids@),
{
    let mut r: Vec<String> = Vec::new();
    let mut i: usize = 0;
    while i < names.len()
        invariant
            i <= names.len(),
            r.len() == i,
            forall|k: int|
                0 <= k < i ==> (#[trigger] r@[k])@ == shown_names(texts(names@), pane_ids@)[k],
        decreases names.len() - i,
    {
        let chars = chars_of(&names[i]);
        let name = if chars.len() > 0 {
            names[i].clone()
        } else if i < pane_ids.len() {
            decimal_string(pane_ids[i] as u128)
        } else {
            String::new()
        };
        assert(texts(names@)[i as int] == names@[i as int]@);
        r.push(name);
        i += 1;
    }
    assert(texts(r@) =~= shown_names(texts(names@), pane_ids@));
    r
}

/// The fixed per-tab width of a strip, counted in characters: the longest display
/// name plus one column on each side, capped to the strip width. `0` when there are
/// no tabs.
pub fn tab_strip_width(display_names: &[String], width: usize) -> (r: usize)
    ensures
        r == strip_tab_width(texts(display_names@), width as int),
{
    if display_names.len() == 0 {
        return 0;
    }
    let ghost names = texts(display_names@);
    let mut max: usize = 0;
    let mut i: usize = 0;
    while i < display_names.len()
        invariant
            i <= display_names.len(),
            names == texts(display_names@),
            max == longest(names.take(i as int)),
        decreases display_names.len() - i,
    {
        let chars = chars_of(&display_names[i]);
        let len: usize = chars.len();
        proof {
            assert(names.take(i + 1).drop_last() =~= names.take(i as int));
            assert(names.take(i + 1).last() == display_names@[i as int]@);
        }
        if len > max {
            max = len;
        }
        i += 1;
    }
    assert(names.take(i as int) =~= names);
    if max >= width || width - max <= 2 {
        width
    } else {
        max + 2
    }
}

/// Where each tab lands in a strip `width` columns wide, relative to the strip's
/// left edge. Tabs past the right edge are dropped; the last visible one is
/// clipped.
#[verifier::spinoff_prover]
pub fn tab_strip_layout(display_names: &[String], width: usize, style: &BorderStyle) -> (r: Vec<
    TabStripEntry,
>)
    ensures
        r@ == strip(texts(display_names@), width as int, *style),
{
    let mut out: Vec<TabStripEntry> = Vec::new();
    let tab_width: usize = tab_strip_width(display_names, width);
    if tab_width == 0 {
        assert(out@ =~= strip(texts(display_names@), width as int, *style));
        return out;
    }
    let ghost l = lead(*style, display_names@.len());
    let ghost w = tab_width as int;
    let mut x: usize = match style {
        BorderStyle::ZellijStyle => if display_names.len() > 1 {
            1
        } else {
            0
        },
        BorderStyle::TmuxStyle => 0,
    };
    let mut index: usize = 0;
    let mut more = true;
    while more && index < display_names.len()
        invariant
            index <= display_names.len(),
            0 < w == tab_width <= width,
            0 <= l <= 1,
            out.len() == index,
            forall|k: int| 0 <= k < index ==> out@[k] == tab_place(k, w, l, width as int),
            index > 0 ==> tab_start((index - 1) as nat, w, l) < width,
            index == 0 ==> x == l,
            index > 0 ==> {
                &&& x <= width
                &&& tab_start(index as nat, w, l) == x + SEPARATOR_WIDTH || (tab_start(
                    index as nat,
                    w,
                    l,
                ) >= width && x == width)
            },
            !more ==> tab_start(index as nat, w, l) >= width,
        decreases
            display_names.len() - index,
            (if more {
                1int
            } else {
                0int
            }),
    {
        if index > 0 {
            if width - x <= SEPARATOR_WIDTH {
                more = false;
            } else {
                x += SEPARATOR_WIDTH;
            }
        }
        if more && x >= width {
            more = false;
        }
        if more {
            let end: usize = if width - x <= tab_width {
                width
            } else {
                x + tab_width
            };
            let ghost from = x as int;
            assert(tab_start(index as nat, w, l) == from);
            out.push(TabStripEntry { index, start: x, end });
            x = end;
            index += 1;
            assert(tab_start(index as nat, w, l) == from + w + SEPARATOR_WIDTH) by {
                assert(((index as nat) - 1) as nat == (index - 1) as nat);
            }
        }
    }
    proof {
        lemma_tabs_shown(display_names@.len(), index as nat, w, l, width as int);
        assert(out@ =~= strip(texts(display_names@), width as int, *style));
    }
    out
}

// ---------------------------------------------------------------------------
// Painting
// ---------------------------------------------------------------------------

/// `n` spaces.
pub open spec fn spaces(n: nat) -> Seq<char> {
    Seq::new(n, |i: int| ' ')
}

/// A name centered in `width` columns; cut off where it is longer.
pub open spec fn centered(name: Seq<char>, width: int) -> Seq<char> {
    let len = if name.len() < width {
        name.len() as int
    } else {
        width
    };
    let pad = width - len;
    spaces((pad / 2) as nat) + name.take(len) + spaces((pad - pad / 2) as nat)
}

/// The colors of a tab strip.
pub struct StripColors {
    /// Before the first tab.
    pub lead_fg: CellColor,
    /// Between the tabs.
    pub separator_fg: CellColor,
    /// Behind both.
    pub bg: CellColor,
    pub active_fg: CellColor,
    pub active_bg: CellColor,
    pub inactive_fg: CellColor,
    pub inactive_bg: CellColor,
}

/// The cells of the tab at `place`.
pub open spec fn tab_cells(
    place: TabStripEntry,
    names: Seq<Seq<char>>,
    active: int,
    colors: StripColors,
) -> Seq<Look> {
    let chars = centered(names[place.index as int], place.end - place.start);
    if place.index == active {
        lettering(chars, colors.active_fg, colors.active_bg, true)
    } else {
        lettering(chars, colors.inactive_fg, colors.inactive_bg, false)
    }
}

/// The separator between two tabs.
pub open spec fn separator() -> Seq<char> {
    seq![' ', '|', ' ']
}

/// The cells in front of the tab at `place`.
pub open spec fn gap_cells(place: TabStripEntry, colors: StripColors) -> Seq<Look> {
    if place.index == 0 {
        lettering(spaces(place.start as nat), colors.lead_fg, colors.bg, false)
    } else {
        lettering(separator(), colors.separator_fg, colors.bg, false)
    }
}

/// The cells of the first `n` tabs of a strip, gaps included.
pub open spec fn strip_cells(
    places: Seq<TabStripEntry>,
    n: int,
    names: Seq<Seq<char>>,
    active: int,
    colors: StripColors,
) -> Seq<Look>
    decreases n,
{
    if n <= 0 {
        Seq::empty()
    } else {
        strip_cells(places, n - 1, names, active, colors) + gap_cells(places[n - 1], colors)
            + tab_cells(places[n - 1], names, active, colors)
    }
}

/// A centered name has exactly the width that it was centered in.
pub proof fn law_a_centered_name_fills_its_width(name: Seq<char>, width: int)
    requires
        width >= 0,
    ensures
        centered(name, width).len() == width,
{
}

fn push_spaces(v: &mut Vec<char>, n: usize)
    ensures
        final(v)@ == old(v)@ + spaces(n as nat),
{
    let ghost before = v@;
    let mut i: usize = 0;
    assert(v@ =~= before + spaces(0));
    while i < n
        invariant
            i <= n,
            v@ == before + spaces(i as nat),
        decreases n - i,
    {
        v.push(' ');
        i += 1;
        assert(v@ =~= before + spaces(i as nat));
    }
}

fn center(name: &str, width: usize) -> (r: Vec<char>)
    ensures
        r@ == centered(name@, width as int),
{
    let chars = chars_of(name);
    let len: usize = if chars.len() < width {
        chars.len()
    } else {
        width
    };
    let pad: usize = width - len;
    let mut r: Vec<char> = Vec::new();
    push_spaces(&mut r, pad / 2);
    let mut i: usize = 0;
    let ghost before = r@;
    assert(r@ =~= before + name@.take(0));
    while i < len
        invariant
            i <= len <= chars.len(),
            chars@ == name@,
            r@ == before + name@.take(i as int),
        decreases len - i,
    {
        r.push(chars[i]);
        i += 1;
        assert(r@ =~= before + name@.take(i as int));
    }
    push_spaces(&mut r, pad - pad / 2);
    assert(r@ =~= centered(name@, width as int));
    r
}

proof fn lemma_row_looks_append(a: Seq<RenderCell>, b: Seq<RenderCell>)
    ensures
        row_looks(a + b) == row_looks(a) + row_looks(b),
{
    assert(row_looks(a + b) =~= row_looks(a) + row_looks(b));
}

/// The cells of a strip whose tabs are at `places`.
fn build_strip(
    places: &Vec<TabStripEntry>,
    names: &Vec<String>,
    active: usize,
    colors: &StripColors,
) -> (r: Vec<RenderCell>)
    requires
        forall|i: int|
            0 <= i < places.len() ==> (#[trigger] places@[i]).index == i && places@[i].start
                <= places@[i].end && i < names.len(),
    ensures
        row_looks(r@) == strip_cells(
            places@,
            places@.len() as int,
            texts(names@),
            active as int,
            *colors,
        ),
{
    let mut r: Vec<RenderCell> = Vec::new();
    let mut i: usize = 0;
    assert(row_looks(r@) =~= strip_cells(places@, 0, texts(names@), active as int, *colors));
    while i < places.len()
        invariant
            i <= places.len(),
            forall|k: int|
                0 <= k < places.len() ==> (#[trigger] places@[k]).index == k && places@[k].start
                    <= places@[k].end && k < names.len(),
            row_looks(r@) == strip_cells(places@, i as int, texts(names@), active as int, *colors),
        decreases places.len() - i,
    {
        let place = places[i];
        let ghost done = r@;
        let mut gap: Vec<char> = Vec::new();
        if i == 0 {
            push_spaces(&mut gap, place.start);
            assert(gap@ =~= spaces(place.start as nat));
        } else {
            gap.push(' ');
            gap.push('|');
            gap.push(' ');
            assert(gap@ =~= separator());
        }
        let fg = if i == 0 {
            colors.lead_fg
        } else {
            colors.separator_fg
        };
        let mut before = letter_cells(&gap, fg, colors.bg, false);
        let chars = center(&names[place.index], place.end - place.start);
        let mut tab = if place.index == active {
            letter_cells(&chars, colors.active_fg, colors.active_bg, true)
        } else {
            letter_cells(&chars, colors.inactive_fg, colors.inactive_bg, false)
        };
        let ghost gap_looks = before@;
        let ghost tab_looks = tab@;
        r.append(&mut before);
        r.append(&mut tab);
        proof {
            assert(texts(names@)[i as int] == names@[i as int]@);
            lemma_row_looks_append(done, gap_looks);
            lemma_row_looks_append(done + gap_looks, tab_looks);
        }
        i += 1;
    }
    r
}

/// The names, the pane ids and the active index of a stack.
#[verifier::ext_equal]
pub struct StackView {
    pub names: Seq<Seq<char>>,
    pub ids: Seq<PaneId>,
    pub active: int,
}

/// A stack as it is handed around for drawing.
pub open spec fn stack_view(info: Option<(Vec<String>, Vec<PaneId>, usize)>) -> Option<StackView> {
    match info {
        Some((names, ids, active)) => Some(
            StackView { names: texts(names@), ids: ids@, active: active as int },
        ),
        None => None,
    }
}

/// Every name of the stack belongs to a pane.
pub open spec fn stack_ok(stack: Option<StackView>) -> bool {
    match stack {
        Some(s) => s.names.len() <= s.ids.len(),
        None => true,
    }
}

/// The colors of a strip set into a border.
pub open spec fn border_strip_colors(
    fg: CellColor,
    mode: Seq<char>,
    theme: CompositorTheme,
) -> StripColors {
    StripColors {
        lead_fg: fg,
        separator_fg: theme.frame_fg,
        bg: theme.frame_bg,
        active_fg: theme.colors_of(mode).0,
        active_bg: theme.colors_of(mode).1,
        inactive_fg: theme.tab_inactive_fg,
        inactive_bg: theme.tab_inactive_bg,
    }
}

/// The colors of a tab bar.
pub open spec fn bar_strip_colors(mode: Seq<char>, theme: CompositorTheme) -> StripColors {
    StripColors {
        lead_fg: theme.separator_fg,
        separator_fg: theme.separator_fg,
        bg: theme.status_bar_bg,
        active_fg: theme.colors_of(mode).0,
        active_bg: theme.colors_of(mode).1,
        inactive_fg: theme.tab_inactive_fg,
        inactive_bg: theme.tab_inactive_bg,
    }
}

/// The label of a lone pane: its name with a space on each side, cut off at `width`.
pub open spec fn lone_label(name: Seq<char>, width: int) -> Seq<char> {
    let full = seq![' '] + name + seq![' '];
    if full.len() < width {
        full
    } else {
        full.take(width)
    }
}

/// What is set into the top border of a stack: the name of a lone pane, or the tabs
/// of several.
pub open spec fn top_content(
    stack: Option<StackView>,
    fg: CellColor,
    mode: Seq<char>,
    width: int,
    theme: CompositorTheme,
) -> Seq<Look> {
    match stack {
        None => Seq::empty(),
        Some(StackView { names, ids, active }) => if ids.len() <= 1 {
            if names.len() == 0 || names[0].len() == 0 {
                Seq::empty()
            } else {
                lettering(
                    lone_label(names[0], width),
                    theme.label(fg).0,
                    theme.label(fg).1,
                    false,
                )
            }
        } else {
            let shown = shown_names(names, ids);
            let places = strip(shown, width, BorderStyle::ZellijStyle);
            let colors = border_strip_colors(fg, mode, theme);
            if places.len() == 0 {
                Seq::empty()
            } else {
                strip_cells(places, places.len() as int, shown, active, colors).push(
                    glyph(' ', fg, theme.frame_bg, false),
                )
            }
        },
    }
}

/// Build the cells for the top border: ` name ` for a lone pane, nothing for one
/// without a name; equal-width tabs for a stack of several panes, the active one in
/// the colors of the mode.
pub fn build_top_border_content(
    stack_info: &Option<(Vec<String>, Vec<PaneId>, usize)>,
    pane_id: PaneId,
    border_fg: &CellColor,
    mode: &str,
    max_width: usize,
    theme: &CompositorTheme,
) -> (r: Vec<RenderCell>)
    ensures
        row_looks(r@) == top_content(
            stack_view(*stack_info),
            *border_fg,
            mode@,
            max_width as int,
            *theme,
        ),
{
    let mut cells: Vec<RenderCell> = Vec::new();
    assert(row_looks(cells@) =~= Seq::empty());
    match stack_info {
        None => cells,
        Some((names, ids, active)) => {
            if ids.len() <= 1 {
                if names.len() == 0 {
                    return cells;
                }
                let mut name = chars_of(&names[0]);
                if name.len() == 0 {
                    return cells;
                }
                let mut label: Vec<char> = Vec::new();
                label.push(' ');
                label.append(&mut name);
                label.push(' ');
                assert(texts(names@)[0] == names@[0]@);
                assert(label@ =~= seq![' '] + names@[0]@ + seq![' ']);
                if label.len() > max_width {
                    label.truncate(max_width);
                }
                assert(label@ =~= lone_label(names@[0]@, max_width as int));
                let (fg, bg) = theme.label_colors(border_fg);
                return letter_cells(&label, fg, bg, false);
            }
            let shown = display_tab_names(names, ids);
            let places = tab_strip_layout(&shown, max_width, &BorderStyle::ZellijStyle);
            proof {
                assert(texts(shown@).len() == shown.len());
                lemma_strip(texts(shown@), max_width as int, BorderStyle::ZellijStyle);
            }
            if places.len() == 0 {
                return cells;
            }
            let (active_fg, active_bg) = theme.mode_colors(mode);
            let colors = StripColors {
                lead_fg: *border_fg,
                separator_fg: theme.frame_fg,
                bg: theme.border_bg(),
                active_fg,
                active_bg,
                inactive_fg: theme.tab_inactive_fg,
                inactive_bg: theme.tab_inactive_bg,
            };
            let mut r = build_strip(&places, &shown, *active, &colors);
            let ghost body = r@;
            r.push(RenderCell::styled(' ', *border_fg, theme.border_bg(), false));
            assert(row_looks(r@) =~= row_looks(body).push(
                glyph(' ', *border_fg, theme.frame_bg, false),
            ));
            r
        },
    }
}

/// The clickable regions of tabs at `places` in a strip that starts at column `x` of
/// row `y`.
pub open spec fn strip_regions(
    places: Seq<TabStripEntry>,
    ids: Seq<PaneId>,
    x: int,
    y: u16,
) -> Seq<StackRegion> {
    Seq::new(
        places.len(),
        |i: int|
            StackRegion {
                x_start: (x + places[i].start) as u16,
                x_end: (x + places[i].end) as u16,
                y,
                pane_id: ids[places[i].index as int],
            },
    )
}

/// The clickable regions of the tabs of a stack; none for a lone pane.
pub open spec fn stack_regions(
    stack: Option<StackView>,
    width: int,
    style: BorderStyle,
    x: int,
    y: u16,
) -> Seq<StackRegion> {
    match stack {
        Some(s) => strip_regions(
            strip(shown_names(s.names, s.ids), width, style),
            s.ids,
            x,
            y,
        ),
        None => Seq::empty(),
    }
}

/// Add the clickable regions of the tabs of a stack.
pub fn push_stack_regions(
    regions: &mut Vec<StackRegion>,
    stack_info: &Option<(Vec<String>, Vec<PaneId>, usize)>,
    width: usize,
    style: &BorderStyle,
    x: u16,
    y: u16,
)
    requires
        stack_ok(stack_view(*stack_info)),
        x + width <= u16::MAX,
    ensures
        final(regions)@ == old(regions)@ + stack_regions(
            stack_view(*stack_info),
            width as int,
            *style,
            x as int,
            y,
        ),
{
    let ghost before = regions@;
    match stack_info {
        None => {
            assert(regions@ =~= before + Seq::empty());
        },
        Some((names, ids, active)) => {
            let shown = display_tab_names(names, ids);
            let places = tab_strip_layout(&shown, width, style);
            proof {
                assert(texts(shown@).len() == shown.len());
                lemma_strip(texts(shown@), width as int, *style);
            }
            let ghost all = strip_regions(places@, ids@, x as int, y);
            let mut i: usize = 0;
            assert(regions@ =~= before + all.take(0));
            while i < places.len()
                invariant
                    i <= places.len() <= names.len() <= ids.len(),
                    x + width <= u16::MAX,
                    all == strip_regions(places@, ids@, x as int, y),
                    forall|k: int|
                        0 <= k < places.len() ==> (#[trigger] places@[k]).index == k
                            && places@[k].start < places@[k].end <= width,
                    regions@ == before + all.take(i as int),
                decreases places.len() - i,
            {
                let place = places[i];
                regions.push(
                    StackRegion {
                        x_start: x + place.start as u16,
                        x_end: x + place.end as u16,
                        y,
                        pane_id: ids[place.index],
                    },
                );
                i += 1;
                assert(regions@ =~= before + all.take(i as int));
            }
            assert(all.take(i as int) =~= all);
        },
    }
}

/// A tab bar in the top row of `rect`: a filled row with the tabs on it.
pub open spec fn tab_bar(
    g: Seq<Seq<Look>>,
    rect: Rect,
    stack: Option<StackView>,
    mode: Seq<char>,
    theme: CompositorTheme,
) -> Seq<Seq<Look>> {
    let filled = drawn(
        g,
        area(
            rect.x as int,
            rect.x + rect.width,
            rect.y as int,
            rect.y + 1,
            glyph(' ', theme.status_bar_fg, theme.status_bar_bg, false),
        ),
    );
    match stack {
        None => filled,
        Some(StackView { names, ids, active }) => {
            let shown = shown_names(names, ids);
            let places = strip(shown, rect.width as int, BorderStyle::TmuxStyle);
            drawn(
                filled,
                run(
                    rect.y as int,
                    rect.x as int,
                    rect.x + rect.width,
                    strip_cells(
                        places,
                        places.len() as int,
                        shown,
                        active,
                        bar_strip_colors(mode, theme),
                    ),
                ),
            )
        },
    }
}

/// Draw a one-row tab bar at the top of a pane's rectangle, and add its clickable
/// regions.
pub fn draw_tmux_tab_bar(
    buffer: &mut Vec<Vec<RenderCell>>,
    rect: Rect,
    stack_info: &Option<(Vec<String>, Vec<PaneId>, usize)>,
    mode: &str,
    hit_regions: &mut HitRegions,
    theme: &CompositorTheme,
)
    requires
        rect.x + rect.width <= u16::MAX,
        stack_ok(stack_view(*stack_info)),
    ensures
        looks(final(buffer)@) == tab_bar(
            looks(old(buffer)@),
            rect,
            stack_view(*stack_info),
            mode@,
            *theme,
        ),
        final(hit_regions).stack_regions@ == old(hit_regions).stack_regions@ + stack_regions(
            stack_view(*stack_info),
            rect.width as int,
            BorderStyle::TmuxStyle,
            rect.x as int,
            rect.y,
        ),
        final(hit_regions).tab_regions@ == old(hit_regions).tab_regions@,
{
    let y: usize = rect.y as usize;
    let x: usize = rect.x as usize;
    let end: usize = x + rect.width as usize;
    let back = RenderCell::styled(' ', theme.status_bar_fg, theme.status_bar_bg, false);
    fill(buffer, x, end, y, y + 1, &back);
    push_stack_regions(
        &mut hit_regions.stack_regions,
        stack_info,
        rect.width as usize,
        &BorderStyle::TmuxStyle,
        rect.x,
        rect.y,
    );
    match stack_info {
        None => {},
        Some((names, ids, active)) => {
            let shown = display_tab_names(names, ids);
            let places = tab_strip_layout(&shown, rect.width as usize, &BorderStyle::TmuxStyle);
            proof {
                assert(texts(shown@).len() == shown.len());
                lemma_strip(texts(shown@), rect.width as int, BorderStyle::TmuxStyle);
            }
            let (active_fg, active_bg) = theme.mode_colors(mode);
            let colors = StripColors {
                lead_fg: theme.separator_fg,
                separator_fg: theme.separator_fg,
                bg: theme.status_bar_bg,
                active_fg,
                active_bg,
                inactive_fg: theme.tab_inactive_fg,
                inactive_bg: theme.tab_inactive_bg,
            };
            let cells = build_strip(&places, &shown, *active, &colors);
            draw_run(buffer, y, x, end, &cells);
        },
    }
}

// ---------------------------------------------------------------------------
// Laws
// ---------------------------------------------------------------------------

/// The tabs of a strip are in order, do not overlap, and stay within the strip.
pub proof fn law_tabs_are_in_order_and_within_the_strip(
    names: Seq<Seq<char>>,
    width: int,
    style: BorderStyle,
    i: int,
)
    requires
        0 <= width <= usize::MAX,
        names.len() <= usize::MAX,
        0 <= i < strip(names, width, style).len(),
    ensures
        ({
            let s = strip(names, width, style);
            &&& s[i].index == i
            &&& s[i].start < s[i].end <= width
            &&& i + 1 < s.len() ==> s[i].end + SEPARATOR_WIDTH == s[i + 1].start
        }),
{
    lemma_strip(names, width, style);
    let s = strip(names, width, style);
    assert(s[i].index == i);
}

proof fn lemma_strip_cells_len(
    places: Seq<TabStripEntry>,
    n: int,
    names: Seq<Seq<char>>,
    active: int,
    colors: StripColors,
)
    requires
        0 <= n <= places.len(),
        forall|i: int|
            0 <= i < places.len() ==> (#[trigger] places[i]).index == i && places[i].start
                < places[i].end,
        forall|i: int|
            0 <= i < places.len() && i + 1 < places.len() ==> (#[trigger] places[i]).end
                + SEPARATOR_WIDTH == places[i + 1].start,
    ensures
        strip_cells(places, n, names, active, colors).len() == (if n == 0 {
            0
        } else {
            places[n - 1].end as int
        }),
    decreases n,
{
    if n > 0 {
        lemma_strip_cells_len(places, n - 1, names, active, colors);
        law_a_centered_name_fills_its_width(
            names[places[n - 1].index as int],
            places[n - 1].end - places[n - 1].start,
        );
        if n > 1 {
            assert(places[n - 2].end + SEPARATOR_WIDTH == places[n - 1].start);
        }
    }
}

proof fn lemma_strip_cells_prefix(
    places: Seq<TabStripEntry>,
    n: int,
    m: int,
    names: Seq<Seq<char>>,
    active: int,
    colors: StripColors,
    k: int,
)
    requires
        0 <= n <= m <= places.len(),
        0 <= k < strip_cells(places, n, names, active, colors).len(),
    ensures
        k < strip_cells(places, m, names, active, colors).len(),
        strip_cells(places, m, names, active, colors)[k] == strip_cells(
            places,
            n,
            names,
            active,
            colors,
        )[k],
    decreases m,
{
    if n < m {
        lemma_strip_cells_prefix(places, n, m - 1, names, active, colors, k);
    }
}

/// The painted columns of a tab are exactly the columns that its place says, which
/// are the ones that a click is tested against: column `start + k` of the strip
/// shows character `k` of the centered name.
pub proof fn law_a_tab_is_painted_where_it_is_clicked(
    names: Seq<Seq<char>>,
    width: int,
    style: BorderStyle,
    active: int,
    colors: StripColors,
    i: int,
    k: int,
)
    requires
        0 <= width <= usize::MAX,
        names.len() <= usize::MAX,
        0 <= i < strip(names, width, style).len(),
        0 <= k < strip(names, width, style)[i].end - strip(names, width, style)[i].start,
    ensures
        ({
            let s = strip(names, width, style);
            let row = strip_cells(s, s.len() as int, names, active, colors);
            &&& s[i].start + k < row.len()
            &&& row[s[i].start + k] == tab_cells(s[i], names, active, colors)[k]
        }),
{
    lemma_strip(names, width, style);
    let s = strip(names, width, style);
    lemma_strip_cells_len(s, i, names, active, colors);
    lemma_strip_cells_len(s, i + 1, names, active, colors);
    lemma_strip_cells_len(s, s.len() as int, names, active, colors);
    law_a_centered_name_fills_its_width(names[i], s[i].end - s[i].start);
    assert(s[i].index == i);
    if i > 0 {
        assert(s[i - 1].end + SEPARATOR_WIDTH == s[i].start);
    }
    let upto = strip_cells(s, i + 1, names, active, colors);
    assert(upto[s[i].start + k] == tab_cells(s[i], names, active, colors)[k]);
    lemma_strip_cells_prefix(s, i + 1, s.len() as int, names, active, colors, s[i].start + k);
}

} // verus!
