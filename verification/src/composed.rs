//! A session on the screen: the frame with the popup on top, the cursor, and what a
//! click can hit.

use crate::boxes::{content_rect, fits_zellij_border, roomy};
use crate::compositor::{
    all_regions, composite, deref_opt, draw_popup, frame, names_fit, popup_drawn, Scene,
};
use crate::config::{BorderStyle, CompositorTheme, TabActivity};
use crate::geometry::{compute_layout, fits_screen, halves, held, placed};
use crate::grid::{blank_grid, clean, looks};
use crate::hit::{rect_from, rect_of_pane, HitRegions, MouseSelection, StackRegion, TabRegion};
use crate::layout::{find_stack_for_pane, get_pane_name, PaneId, Rect, Tree};
use crate::protocol::{Look, PaneRect, RenderCell};
use crate::screen::{sub0, Screen};
use crate::session::{Session, SessionView};
use crate::sizing::{content_area, pane_area};
use crate::state::{ServerState, StateView};
use crate::status_bar::{tab_regions, tabs_start, StatusInfo};
use crate::tab::{Tab, TabView};
use crate::text::{chars_of, push_char, string_of};
use std::collections::HashMap;
use vstd::prelude::*;
use vstd::utf8::{encode_utf8, is_ascii_chars};

verus! {

broadcast use vstd::std_specs::hash::group_hash_axioms;

/// The cursor of a terminal.
#[derive(Clone, Copy, Debug, PartialEq, Eq, Structural)]
pub struct Cursor {
    pub x: u16,
    pub y: u16,
    pub visible: bool,
    pub style: u8,
}

/// A session, ready to be shown.
#[derive(Debug)]
pub struct Composed {
    pub cells: Vec<Vec<RenderCell>>,
    pub cursor: Cursor,
    /// Where the content is that the user works in.
    pub focused_pane_rect: Option<PaneRect>,
    pub regions: HitRegions,
    /// The rectangles of the layout's panes; the popup is not among them.
    pub pane_rects: Vec<(PaneId, Rect)>,
    pub application_cursor_keys: bool,
    /// The popup, if it is up.
    pub popup: Option<(PaneId, Rect)>,
}

/// A composed session as a mathematical value.
#[verifier::ext_equal]
pub struct ComposedView {
    pub cells: Seq<Seq<Look>>,
    pub cursor: Cursor,
    pub focused_pane_rect: Option<PaneRect>,
    pub stack_regions: Seq<StackRegion>,
    pub tab_regions: Seq<TabRegion>,
    pub pane_rects: Seq<(PaneId, Rect)>,
    pub application_cursor_keys: bool,
    pub popup: Option<(PaneId, Rect)>,
}

impl View for Composed {
    type V = ComposedView;

    open spec fn view(&self) -> ComposedView {
        ComposedView {
            cells: looks(self.cells@),
            cursor: self.cursor,
            focused_pane_rect: self.focused_pane_rect,
            stack_regions: self.regions.stack_regions@,
            tab_regions: self.regions.tab_regions@,
            pane_rects: self.pane_rects@,
            application_cursor_keys: self.application_cursor_keys,
            popup: self.popup,
        }
    }
}

// ---------------------------------------------------------------------------
// The status bar
// ---------------------------------------------------------------------------

/// The label of a tab in the status bar: a zoomed one is marked.
pub open spec fn tab_title(t: TabView, is_active: bool) -> Seq<char> {
    if is_active && t.zoomed is Some {
        t.name.push(' ').push('Z')
    } else {
        t.name
    }
}

/// The status bar shows this.
pub open spec fn describes(
    info: StatusInfo,
    s: SessionView,
    name: Seq<char>,
    mode: Seq<char>,
    search: Option<(usize, usize)>,
) -> bool {
    &&& info.mode@ == mode
    &&& info.session_name@ == name
    &&& info.search_info == search
    &&& s.current() matches Some(t) && info.layout_mode@ == t.mode.label()
    &&& info.tabs@.len() == s.tabs.len()
    &&& forall|i: int|
        0 <= i < s.tabs.len() ==> {
            &&& (#[trigger] info.tabs@[i]).0@ == tab_title(s.tabs[i], i == s.active)
            &&& info.tabs@[i].1 == (i == s.active)
            &&& info.tabs@[i].2 == s.tabs[i].activity
        }
}

/// What the status bar shows of a session.
pub fn status_of(s: &Session, name: &str, mode: &str, search: Option<(usize, usize)>) -> (r:
    StatusInfo)
    requires
        s@.current() is Some,
    ensures
        describes(r, s@, name@, mode@, search),
{
    let mut tabs: Vec<(String, bool, TabActivity)> = Vec::new();
    let mut i: usize = 0;
    while i < s.tabs.len()
        invariant
            i <= s.tabs.len(),
            tabs.len() == i,
            forall|k: int|
                0 <= k < i ==> {
                    &&& (#[trigger] tabs@[k]).0@ == tab_title(s.tabs@[k]@, k == s.active_tab)
                    &&& tabs@[k].1 == (k == s.active_tab)
                    &&& tabs@[k].2 == s.tabs@[k]@.activity
                },
        decreases s.tabs.len() - i,
    {
        let tab = &s.tabs[i];
        let active = i == s.active_tab;
        let mut title = string_of(&chars_of(&tab.name));
        if active && tab.zoomed_pane.is_some() {
            push_char(&mut title, ' ');
            push_char(&mut title, 'Z');
        }
        tabs.push((title, active, tab.activity));
        i += 1;
    }
    assert(s@.tabs[s.active_tab as int] == s.tabs@[s.active_tab as int]@);
    StatusInfo {
        mode: string_of(&chars_of(mode)),
        session_name: string_of(&chars_of(name)),
        tabs,
        layout_mode: string_of(&chars_of(s.tabs[s.active_tab].layout_mode.name())),
        search_info: search,
    }
}

// ---------------------------------------------------------------------------
// The popup
// ---------------------------------------------------------------------------

/// The popup, if it is up and its pane is alive.
pub open spec fn popup_shown(
    s: SessionView,
    screens: Map<PaneId, &Screen>,
    rect: Rect,
) -> Option<(PaneId, Rect)> {
    match s.popup {
        Some(p) => if s.popup_visible && screens.contains_key(p) {
            Some((p, rect))
        } else {
            None
        },
        None => None,
    }
}

/// The pane that input goes to.
pub open spec fn owner(t: TabView, popup: Option<(PaneId, Rect)>) -> PaneId {
    match popup {
        Some((p, _)) => p,
        None => t.focused,
    }
}

/// How far each pane is scrolled: only the one that input goes to.
pub open spec fn scrolls(pane: PaneId, offset: usize) -> Map<PaneId, usize> {
    if offset > 0 {
        Map::empty().insert(pane, offset)
    } else {
        Map::empty()
    }
}

/// The label lies under the rectangle, in part at least.
pub open spec fn covered(r: StackRegion, p: Rect) -> bool {
    &&& p.y <= r.y < p.y + p.height
    &&& r.x_end > p.x
    &&& r.x_start < p.x + p.width
}

/// Those of the first `n` labels that do not lie under the rectangle.
pub open spec fn uncovered(regions: Seq<StackRegion>, p: Rect, n: int) -> Seq<StackRegion>
    decreases n,
{
    if n <= 0 {
        Seq::empty()
    } else if covered(regions[n - 1], p) {
        uncovered(regions, p, n - 1)
    } else {
        uncovered(regions, p, n - 1).push(regions[n - 1])
    }
}

/// The labels that can be clicked while the popup is up.
fn clickable(regions: &Vec<StackRegion>, p: Rect) -> (r: Vec<StackRegion>)
    ensures
        r@ == uncovered(regions@, p, regions@.len() as int),
{
    let mut out: Vec<StackRegion> = Vec::new();
    let mut i: usize = 0;
    while i < regions.len()
        invariant
            i <= regions.len(),
            out@ == uncovered(regions@, p, i as int),
        decreases regions.len() - i,
    {
        let r = regions[i];
        let hidden = r.y >= p.y && (r.y as u32) < p.y as u32 + p.height as u32 && r.x_end > p.x && (
        r.x_start as u32) < p.x as u32 + p.width as u32;
        if !hidden {
            out.push(r);
        }
        i += 1;
    }
    out
}

// ---------------------------------------------------------------------------
// The cursor
// ---------------------------------------------------------------------------

/// The stack of the pane has a tab bar.
pub open spec fn barred(t: Tree, pane: PaneId) -> bool {
    t.stack_of(pane) matches Some(s) && s.height() > 1
}

/// The content of the focused pane: inside the box, or below the tab bar.
pub open spec fn inner_rect(style: BorderStyle, rect: Rect, bar: bool) -> PaneRect {
    match style {
        BorderStyle::ZellijStyle => if roomy(rect.width, rect.height) {
            PaneRect {
                x: (rect.x + 1) as u16,
                y: (rect.y + 1) as u16,
                width: (rect.width - 2) as u16,
                height: (rect.height - 2) as u16,
            }
        } else {
            as_pane_rect(rect)
        },
        BorderStyle::TmuxStyle => if bar {
            PaneRect {
                x: rect.x,
                y: (rect.y + 1) as u16,
                width: rect.width,
                height: sub0(rect.height as int, 1) as u16,
            }
        } else {
            as_pane_rect(rect)
        },
    }
}

/// The same rectangle.
pub open spec fn as_pane_rect(r: Rect) -> PaneRect {
    PaneRect { x: r.x, y: r.y, width: r.width, height: r.height }
}

/// A coordinate within an extent that may be too small for it.
pub open spec fn within(v: u16, extent: u16) -> int {
    if v < extent {
        v as int
    } else {
        sub0(extent as int, 1)
    }
}

/// The cursor of a screen whose content is shown in a rectangle.
pub open spec fn cursor_in(screen: Screen, r: PaneRect) -> Cursor {
    Cursor {
        x: (r.x + within(screen.cursor_x, r.width)) as u16,
        y: (r.y + within(screen.cursor_y, r.height)) as u16,
        visible: screen.cursor_visible,
        style: screen.cursor_style,
    }
}

/// No cursor.
pub open spec fn no_cursor() -> Cursor {
    Cursor { x: 0, y: 0, visible: false, style: 0 }
}

/// The cursor behind a name that is being typed into a pane's border.
pub open spec fn rename_cursor(
    s: SessionView,
    t: TabView,
    rects: Seq<(PaneId, Rect)>,
) -> Option<Cursor> {
    match s.renaming {
        Some((p, _)) => if s.style is ZellijStyle {
            match rect_from(rects, p, 0) {
                Some(r) => Some(
                    Cursor {
                        x: held(r.x + 2 + (typed_len(t.layout.name_of(p)) as int) % 0x1_0000) as u16,
                        y: r.y,
                        visible: true,
                        style: 0,
                    },
                ),
                None => None,
            }
        } else {
            None
        },
        None => None,
    }
}

/// The number of bytes of a name. Of an ASCII name it is the number of the cells it takes.
pub open spec fn typed_len(name: Option<Seq<char>>) -> usize {
    match name {
        Some(n) => encode_utf8(n).len() as usize,
        None => 0,
    }
}

/// Where the content is that the user works in.
pub open spec fn work_rect(
    s: SessionView,
    t: TabView,
    rects: Seq<(PaneId, Rect)>,
    popup: Option<(PaneId, Rect)>,
) -> Option<PaneRect> {
    match popup {
        Some((_, r)) => Some(as_pane_rect(content_rect(BorderStyle::ZellijStyle, r, false))),
        None => match rect_from(rects, t.focused, 0) {
            Some(r) => Some(inner_rect(s.style, r, barred(t.layout, t.focused))),
            None => None,
        },
    }
}

/// The cursor: the popup's, else that of a rename, else that of the focused pane.
pub open spec fn cursor_shown(
    s: SessionView,
    t: TabView,
    screens: Map<PaneId, &Screen>,
    rects: Seq<(PaneId, Rect)>,
    popup: Option<(PaneId, Rect)>,
) -> Cursor {
    let rename = rename_cursor(s, t, rects);
    if popup is None && rename is Some {
        rename->0
    } else {
        match work_rect(s, t, rects, popup) {
            Some(r) => if screens.contains_key(owner(t, popup)) {
                cursor_in(*screens[owner(t, popup)], r)
            } else {
                no_cursor()
            },
            None => no_cursor(),
        }
    }
}

// ---------------------------------------------------------------------------
// The whole
// ---------------------------------------------------------------------------

/// An empty terminal.
pub open spec fn nothing_shown(cols: u16, rows: u16) -> ComposedView {
    ComposedView {
        cells: clean(cols as int, rows as int),
        cursor: no_cursor(),
        focused_pane_rect: None,
        stack_regions: Seq::empty(),
        tab_regions: Seq::empty(),
        pane_rects: Seq::empty(),
        application_cursor_keys: false,
        popup: None,
    }
}

/// A session whose tab `t` is shown, with the status bar `info`.
pub open spec fn tab_shown(
    s: SessionView,
    t: TabView,
    info: StatusInfo,
    cols: u16,
    rows: u16,
    screens: Map<PaneId, &Screen>,
    selection: Option<MouseSelection>,
    offset: usize,
    popup_rect: Rect,
    theme: CompositorTheme,
) -> ComposedView {
    let rects = placed(t.shown(), pane_area(cols, rows), 0);
    let popup = popup_shown(s, screens, popup_rect);
    let target = owner(t, popup);
    let scene = Scene {
        tree: t.shown(),
        focused: t.focused,
        mode: info.mode@,
        scrolls: scrolls(target, offset),
        theme,
    };
    let base = frame(rects, screens, scene, s.style, selection, info, cols, rows);
    let labels = all_regions(rects, rects.len() as int, screens, t.shown(), s.style);
    ComposedView {
        cells: match popup {
            Some((p, r)) => popup_drawn(
                base,
                r,
                p,
                *screens[p],
                "popup"@,
                info.mode@,
                offset,
                selection,
                theme,
            ),
            None => base,
        },
        cursor: cursor_shown(s, t, screens, rects, popup),
        focused_pane_rect: work_rect(s, t, rects, popup),
        stack_regions: match popup {
            Some((_, r)) => uncovered(labels, r, labels.len() as int),
            None => labels,
        },
        tab_regions: if rows == 0 {
            Seq::empty()
        } else {
            tab_regions(
                info.tabs@,
                tabs_start(info.mode@, info.session_name@, cols as int, cols as int),
                rows - 1,
                theme,
            )
        },
        pane_rects: rects,
        application_cursor_keys: screens.contains_key(target)
            && screens[target].application_cursor_keys,
        popup,
    }
}

/// Without a gap every pane lies within the area, down to its empty edges.
proof fn lemma_inside(t: Tree, within: Rect, i: int)
    requires
        fits_screen(within),
        0 <= i < placed(t, within, 0).len(),
    ensures
        ({
            let r = placed(t, within, 0)[i].1;
            r.x + r.width <= within.x + within.width && r.y + r.height <= within.y + within.height
        }),
    decreases t,
{
    match t {
        Tree::Stack { .. } => {},
        Tree::Split { direction, ratio, first, second } => {
            let (a, b) = halves(within, direction, ratio, 0);
            let n = placed(*first, a, 0).len();
            if i < n {
                lemma_inside(*first, a, i);
            } else {
                lemma_inside(*second, b, i - n);
            }
        },
    }
}

proof fn lemma_rect_inside(rects: Seq<(PaneId, Rect)>, id: PaneId, i: int)
    requires
        0 <= i,
    ensures
        rect_from(rects, id, i) matches Some(r) ==> exists|k: int|
            i <= k < rects.len() && (#[trigger] rects[k]).1 == r,
    decreases rects.len() - i,
{
    if i < rects.len() && rects[i].0 != id {
        lemma_rect_inside(rects, id, i + 1);
    }
}

/// The rectangle of a pane ends within the area.
proof fn lemma_found_inside(t: Tree, within: Rect, id: PaneId)
    requires
        fits_screen(within),
    ensures
        rect_from(placed(t, within, 0), id, 0) matches Some(r) ==> r.x + r.width <= within.x
            + within.width && r.y + r.height <= within.y + within.height,
{
    let rects = placed(t, within, 0);
    lemma_rect_inside(rects, id, 0);
    if let Some(r) = rect_from(rects, id, 0) {
        let k = choose|k: int| 0 <= k < rects.len() && (#[trigger] rects[k]).1 == r;
        lemma_inside(t, within, k);
    }
}

fn place_cursor(screen: &Screen, r: PaneRect) -> (c: Cursor)
    requires
        r.x + sub0(r.width as int, 1) <= u16::MAX,
        r.y + sub0(r.height as int, 1) <= u16::MAX,
    ensures
        c == cursor_in(*screen, r),
{
    let dx: u16 = if screen.cursor_x < r.width {
        screen.cursor_x
    } else {
        r.width.saturating_sub(1)
    };
    let dy: u16 = if screen.cursor_y < r.height {
        screen.cursor_y
    } else {
        r.height.saturating_sub(1)
    };
    Cursor {
        x: r.x + dx,
        y: r.y + dy,
        visible: screen.cursor_visible,
        style: screen.cursor_style,
    }
}

fn inner(style: &BorderStyle, rect: Rect, bar: bool) -> (r: PaneRect)
    requires
        rect.x + rect.width <= u16::MAX,
        rect.y + rect.height < u16::MAX,
    ensures
        r == inner_rect(*style, rect, bar),
        r.x + sub0(r.width as int, 1) <= u16::MAX,
        r.y + sub0(r.height as int, 1) <= u16::MAX,
{
    match style {
        BorderStyle::ZellijStyle => if fits_zellij_border(rect.width, rect.height) {
            PaneRect {
                x: rect.x + 1,
                y: rect.y + 1,
                width: rect.width - 2,
                height: rect.height - 2,
            }
        } else {
            PaneRect { x: rect.x, y: rect.y, width: rect.width, height: rect.height }
        },
        BorderStyle::TmuxStyle => if bar {
            PaneRect {
                x: rect.x,
                y: rect.y + 1,
                width: rect.width,
                height: rect.height.saturating_sub(1),
            }
        } else {
            PaneRect { x: rect.x, y: rect.y, width: rect.width, height: rect.height }
        },
    }
}

fn has_bar(tab: &Tab) -> (r: bool)
    ensures
        r == barred(tab@.layout, tab@.focused),
{
    match find_stack_for_pane(&tab.layout, tab.focused_pane) {
        Some(panes) => panes.len() > 1,
        None => false,
    }
}

fn renaming_cursor(s: &Session, tab: &Tab, rects: &Vec<(PaneId, Rect)>) -> (r: Option<Cursor>)
    ensures
        r == rename_cursor(s@, tab@, rects@),
{
    match &s.rename_state {
        Some((p, _)) => match &s.border_style {
            BorderStyle::ZellijStyle => match rect_of_pane(rects, None, *p) {
                Some(rect) => {
                    let len: usize = match get_pane_name(&tab.layout, *p) {
                        Some(n) => n.as_str().len(),
                        None => 0,
                    };
                    let low: u32 = (len % 0x1_0000) as u32;
                    let x: u32 = rect.x as u32 + 2 + low;
                    Some(
                        Cursor {
                            x: if x > 0xffff {
                                0xffff
                            } else {
                                x as u16
                            },
                            y: rect.y,
                            visible: true,
                            style: 0,
                        },
                    )
                },
                None => None,
            },
            BorderStyle::TmuxStyle => None,
        },
        None => None,
    }
}

/// What is drawn of a session: nothing where it is not there or has no tab to show, else
/// its tab, with a status bar that describes it.
pub open spec fn draws(
    r: ComposedView,
    session: Seq<char>,
    cols: u16,
    rows: u16,
    mode: Seq<char>,
    st: StateView,
    screens: Map<PaneId, &Screen>,
    selection: Option<MouseSelection>,
    search_info: Option<(usize, usize)>,
    offset: usize,
    popup_rect: Rect,
    theme: CompositorTheme,
) -> bool {
    if !st.sessions.contains_key(session) {
        r == nothing_shown(cols, rows)
    } else {
        let s = st.sessions[session];
        match s.current() {
            None => r == nothing_shown(cols, rows),
            Some(t) => exists|info: StatusInfo| #[trigger]
                describes(info, s, session, mode, search_info) && r == tab_shown(
                    s,
                    t,
                    info,
                    cols,
                    rows,
                    screens,
                    selection,
                    offset,
                    popup_rect,
                    theme,
                ),
        }
    }
}

/// Draws a session for a terminal of `cols` columns and `rows` rows. The popup, if it
/// is up, is drawn at `popup_rect`, over the finished frame: it takes no space from the
/// panes and leaves a zoom alone.
pub fn build_composite(
    session_name: &str,
    cols: u16,
    rows: u16,
    mode: &str,
    state: &ServerState,
    screens: &HashMap<PaneId, &Screen>,
    selection: Option<&MouseSelection>,
    search_info: Option<(usize, usize)>,
    scroll_offset: usize,
    popup_rect: Rect,
    theme: &CompositorTheme,
) -> (r: Composed)
    requires
        fits_screen(popup_rect),
        state@.sessions.contains_key(session_name@) ==> (
        state@.sessions[session_name@].current() matches Some(t) ==> names_fit(t.shown())),
    ensures
        draws(
            r@,
            session_name@,
            cols,
            rows,
            mode@,
            state@,
            screens@,
            deref_opt(selection),
            search_info,
            scroll_offset,
            popup_rect,
            *theme,
        ),
{
    match state.sessions.get(session_name) {
        Some(s) => if s.active_tab < s.tabs.len() {
            compose_session(
                s,
                session_name,
                cols,
                rows,
                mode,
                screens,
                selection,
                search_info,
                scroll_offset,
                popup_rect,
                theme,
            )
        } else {
            blank_session(cols, rows)
        },
        None => blank_session(cols, rows),
    }
}

fn blank_session(cols: u16, rows: u16) -> (r: Composed)
    ensures
        r@ == nothing_shown(cols, rows),
{
    let r = Composed {
        cells: blank_grid(cols, rows),
        cursor: Cursor { x: 0, y: 0, visible: false, style: 0 },
        focused_pane_rect: None,
        regions: HitRegions { tab_regions: Vec::new(), stack_regions: Vec::new() },
        pane_rects: Vec::new(),
        application_cursor_keys: false,
        popup: None,
    };
    assert(r@ =~= nothing_shown(cols, rows));
    r
}

fn compose_session(
    s: &Session,
    session_name: &str,
    cols: u16,
    rows: u16,
    mode: &str,
    screens: &HashMap<PaneId, &Screen>,
    selection: Option<&MouseSelection>,
    search_info: Option<(usize, usize)>,
    scroll_offset: usize,
    popup_rect: Rect,
    theme: &CompositorTheme,
) -> (r: Composed)
    requires
        fits_screen(popup_rect),
        s@.current() matches Some(t) && names_fit(t.shown()),
    ensures
        exists|info: StatusInfo| #[trigger]
            describes(info, s@, session_name@, mode@, search_info) && r@ == tab_shown(
                s@,
                s@.current()->0,
                info,
                cols,
                rows,
                screens@,
                deref_opt(selection),
                scroll_offset,
                popup_rect,
                *theme,
            ),
{
    let tab = &s.tabs[s.active_tab];
    assert(s@.tabs[s.active_tab as int] == tab@);
    let ghost t = tab@;
    let area = content_area(cols, rows);
    let layout = tab.effective_layout();
    let rects = compute_layout(&layout, area, 0);
    let info = status_of(s, session_name, mode, search_info);
    let popup: Option<(PaneId, Rect)> = match s.popup_pane {
        Some(p) => if s.popup_visible && screens.contains_key(&p) {
            Some((p, popup_rect))
        } else {
            None
        },
        None => None,
    };
    let target: PaneId = match popup {
        Some((p, _)) => p,
        None => tab.focused_pane,
    };
    let mut offsets: HashMap<PaneId, usize> = HashMap::new();
    if scroll_offset > 0 {
        offsets.insert(target, scroll_offset);
    }
    assert(offsets@ =~= scrolls(target, scroll_offset));
    let (mut cells, mut regions) = composite(
        &layout,
        screens,
        area,
        &s.border_style,
        &info,
        cols,
        rows,
        0,
        tab.focused_pane,
        selection,
        &offsets,
        theme,
    );
    proof {
        lemma_found_inside(t.shown(), area, t.focused);
    }
    let focused_pane_rect: Option<PaneRect>;
    match popup {
        Some((p, r)) => {
            let screen: &Screen = *screens.get(&p).unwrap();
            let inside = draw_popup(
                &mut cells,
                r,
                p,
                screen,
                "popup",
                mode,
                scroll_offset,
                selection,
                theme,
            );
            let kept = clickable(&regions.stack_regions, r);
            regions.stack_regions = kept;
            focused_pane_rect = Some(
                PaneRect { x: inside.x, y: inside.y, width: inside.width, height: inside.height },
            );
        },
        None => {
            focused_pane_rect = match rect_of_pane(&rects, None, tab.focused_pane) {
                Some(r) => Some(inner(&s.border_style, r, has_bar(tab))),
                None => None,
            };
        },
    }
    let typing = renaming_cursor(s, tab, &rects);
    let cursor: Cursor = match (popup, typing) {
        (None, Some(c)) => c,
        _ => match (focused_pane_rect, screens.get(&target)) {
            (Some(r), Some(screen)) => place_cursor(screen, r),
            _ => Cursor { x: 0, y: 0, visible: false, style: 0 },
        },
    };
    let application_cursor_keys = match screens.get(&target) {
        Some(screen) => screen.application_cursor_keys,
        None => false,
    };
    let r = Composed {
        cells,
        cursor,
        focused_pane_rect,
        regions,
        pane_rects: rects,
        application_cursor_keys,
        popup,
    };
    assert(r@ =~= tab_shown(
        s@,
        t,
        info,
        cols,
        rows,
        screens@,
        deref_opt(selection),
        scroll_offset,
        popup_rect,
        *theme,
    ));
    r
}

/// The popup takes no space: every pane is where it is without it. While it is up the
/// content that the user works in, the cursor and the keys are the popup's, whatever pane
/// has the focus behind it.
pub proof fn law_the_popup_lies_over_the_layout(
    s: SessionView,
    t: TabView,
    info: StatusInfo,
    cols: u16,
    rows: u16,
    screens: Map<PaneId, &Screen>,
    selection: Option<MouseSelection>,
    offset: usize,
    popup_rect: Rect,
    theme: CompositorTheme,
)
    ensures
        ({
            let hidden = SessionView { popup_visible: false, ..s };
            let with = tab_shown(
                s,
                t,
                info,
                cols,
                rows,
                screens,
                selection,
                offset,
                popup_rect,
                theme,
            );
            let bare = tab_shown(
                hidden,
                t,
                info,
                cols,
                rows,
                screens,
                selection,
                offset,
                popup_rect,
                theme,
            );
            &&& with.pane_rects == bare.pane_rects
            &&& with.tab_regions == bare.tab_regions
            &&& bare.popup is None
            &&& with.popup matches Some((p, r)) ==> {
                let inside = as_pane_rect(content_rect(BorderStyle::ZellijStyle, r, false));
                &&& with.focused_pane_rect == Some(inside)
                &&& with.cursor == cursor_in(*screens[p], inside)
                &&& with.application_cursor_keys == screens[p].application_cursor_keys
            }
        }),
{
}

proof fn lemma_uncovered(regions: Seq<StackRegion>, p: Rect, n: int, i: int)
    requires
        0 <= n <= regions.len(),
        0 <= i < uncovered(regions, p, n).len(),
    ensures
        !covered(uncovered(regions, p, n)[i], p),
        regions.contains(uncovered(regions, p, n)[i]),
    decreases n,
{
    if n > 0 {
        let before = uncovered(regions, p, n - 1);
        if i < before.len() {
            lemma_uncovered(regions, p, n - 1, i);
        } else {
            assert(regions[n - 1] == uncovered(regions, p, n)[i]);
        }
    }
}

/// A label that the popup covers cannot be clicked.
pub proof fn law_no_label_shines_through_the_popup(
    s: SessionView,
    t: TabView,
    info: StatusInfo,
    cols: u16,
    rows: u16,
    screens: Map<PaneId, &Screen>,
    selection: Option<MouseSelection>,
    offset: usize,
    popup_rect: Rect,
    theme: CompositorTheme,
    i: int,
)
    requires
        popup_shown(s, screens, popup_rect) is Some,
        0 <= i < tab_shown(
            s,
            t,
            info,
            cols,
            rows,
            screens,
            selection,
            offset,
            popup_rect,
            theme,
        ).stack_regions.len(),
    ensures
        !covered(
            tab_shown(
                s,
                t,
                info,
                cols,
                rows,
                screens,
                selection,
                offset,
                popup_rect,
                theme,
            ).stack_regions[i],
            popup_rect,
        ),
{
    let rects = placed(t.shown(), pane_area(cols, rows), 0);
    let labels = all_regions(rects, rects.len() as int, screens, t.shown(), s.style);
    lemma_uncovered(labels, popup_rect, labels.len() as int, i);
}

/// The cursor of a rename stands right behind the typed name, where the name is in ASCII and
/// the screen has room for it.
pub proof fn law_the_rename_cursor_is_behind_the_name(
    s: SessionView,
    t: TabView,
    rects: Seq<(PaneId, Rect)>,
    pane: PaneId,
    name: Seq<char>,
)
    requires
        s.renaming matches Some((p, _)) && p == pane,
        s.style is ZellijStyle,
        rect_from(rects, pane, 0) is Some,
        t.layout.name_of(pane) == Some(name),
        is_ascii_chars(name),
        rect_from(rects, pane, 0)->0.x + 2 + name.len() <= u16::MAX,
    ensures
        ({
            let r = rect_from(rects, pane, 0)->0;
            rename_cursor(s, t, rects) == Some(
                Cursor { x: (r.x + 2 + name.len()) as u16, y: r.y, visible: true, style: 0 },
            )
        }),
{
    vstd::utf8::is_ascii_chars_encode_utf8(name);
}

} // verus!
