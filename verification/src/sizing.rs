//! How large each pane's terminal is.

use crate::boxes::{content_rect, fits_zellij_border};
use crate::clients::{min_demand, render_size, watched, Clients};
use crate::client::ClientView;
use crate::compositor::{is_multi_stack, shares_stack};
use crate::config::BorderStyle;
use crate::geometry::{compute_layout, placed};
use crate::layout::{PaneId, Rect};
use crate::screen::sub0;
use crate::session::{Session, SessionView};
use crate::state::{ServerState, StateView};
use vstd::prelude::*;

verus! {

/// A pane with the size of its terminal.
pub type PaneSize = (PaneId, u16, u16);

/// The area that the panes of a session share: the terminal without the status bar.
pub open spec fn pane_area(cols: u16, rows: u16) -> Rect {
    Rect { x: 0, y: 0, width: cols, height: sub0(rows as int, 1) as u16 }
}

/// The area that the panes of a session share.
pub fn content_area(cols: u16, rows: u16) -> (r: Rect)
    ensures
        r == pane_area(cols, rows),
{
    Rect { x: 0, y: 0, width: cols, height: rows.saturating_sub(1) }
}

/// The size of a pane's content.
fn content_size(style: &BorderStyle, rect: Rect, multi_stack: bool) -> (r: (u16, u16))
    ensures
        r.0 == content_rect(*style, rect, multi_stack).width,
        r.1 == content_rect(*style, rect, multi_stack).height,
{
    match style {
        BorderStyle::ZellijStyle => if fits_zellij_border(rect.width, rect.height) {
            (rect.width - 2, rect.height - 2)
        } else {
            (rect.width, rect.height)
        },
        BorderStyle::TmuxStyle => if multi_stack && rect.height >= 2 {
            (rect.width, rect.height - 1)
        } else {
            (rect.width, rect.height)
        },
    }
}

/// The size of the content of each pane that the session shows.
pub open spec fn shown_sizes(s: SessionView, cols: u16, rows: u16) -> Seq<PaneSize> {
    match s.current() {
        Some(t) => {
            let rects = placed(t.shown(), pane_area(cols, rows), 0);
            Seq::new(
                rects.len(),
                |i: int|
                    {
                        let c = content_rect(
                            s.style,
                            rects[i].1,
                            shares_stack(t.shown(), rects[i].0),
                        );
                        (rects[i].0, c.width, c.height)
                    },
            )
        },
        None => Seq::empty(),
    }
}

/// The size of the content of each pane that the session shows, drawn at a size.
pub fn active_tab_content_sizes(s: &Session, cols: u16, rows: u16) -> (r: Vec<PaneSize>)
    ensures
        r@ == shown_sizes(s@, cols, rows),
{
    let mut out: Vec<PaneSize> = Vec::new();
    if s.active_tab < s.tabs.len() {
        let tab = &s.tabs[s.active_tab];
        assert(s@.tabs[s.active_tab as int] == tab@);
        let layout = tab.effective_layout();
        let rects = compute_layout(&layout, content_area(cols, rows), 0);
        let mut i: usize = 0;
        while i < rects.len()
            invariant
                i <= rects.len(),
                layout@ == tab@.shown(),
                rects@ == placed(layout@, pane_area(cols, rows), 0),
                out.len() == i,
                forall|k: int|
                    0 <= k < i ==> #[trigger] out@[k] == ({
                        let c = content_rect(
                            s@.style,
                            rects@[k].1,
                            shares_stack(layout@, rects@[k].0),
                        );
                        (rects@[k].0, c.width, c.height)
                    }),
            decreases rects.len() - i,
        {
            let (id, rect) = rects[i];
            let (w, h) = content_size(&s.border_style, rect, is_multi_stack(&layout, id));
            out.push((id, w, h));
            i += 1;
        }
    }
    assert(out@ =~= shown_sizes(s@, cols, rows));
    out
}

/// The size of a pane in a list.
pub open spec fn size_in(list: Seq<PaneSize>, pane: PaneId, i: int) -> Option<(u16, u16)>
    decreases list.len() - i,
{
    if i < 0 || i >= list.len() {
        None
    } else if list[i].0 == pane {
        Some((list[i].1, list[i].2))
    } else {
        size_in(list, pane, i + 1)
    }
}

fn find_size(list: &Vec<PaneSize>, pane: PaneId) -> (r: Option<(u16, u16)>)
    ensures
        r == size_in(list@, pane, 0),
{
    let mut i: usize = 0;
    while i < list.len()
        invariant
            i <= list.len(),
            size_in(list@, pane, 0) == size_in(list@, pane, i as int),
        decreases list.len() - i,
    {
        if list[i].0 == pane {
            return Some((list[i].1, list[i].2));
        }
        i += 1;
    }
    None
}

/// The session shows the tab of a pane.
pub open spec fn shows(s: SessionView, pane: PaneId) -> bool {
    s.current() matches Some(t) && t.order.contains(pane)
}

/// Whether the session shows the tab of a pane.
pub fn is_showing(s: &Session, pane: PaneId) -> (r: bool)
    ensures
        r == shows(s@, pane),
{
    if s.active_tab < s.tabs.len() {
        assert(s@.tabs[s.active_tab as int] == s.tabs@[s.active_tab as int]@);
        s.tabs[s.active_tab].has_pane(pane)
    } else {
        false
    }
}

/// A client has the tab of a pane in the foreground.
pub open spec fn session_visible(
    st: StateView,
    c: Seq<(u64, ClientView)>,
    pane: PaneId,
) -> bool {
    exists|k: Seq<char>| #[trigger]
        st.sessions.contains_key(k) && shows(st.sessions[k], pane) && watched(c, k)
}

/// The index of the first session that shows the tab of a pane to a client.
fn visible_in(st: &ServerState, clients: &Clients, pane: PaneId) -> (r: Option<usize>)
    requires
        st.named(),
    ensures
        match r {
            Some(i) => {
                &&& i < st.sessions.entries.len()
                &&& shows(st.sessions.entries@[i as int].1@, pane)
                &&& watched(clients@, st.sessions.entries@[i as int].0@)
            },
            None => true,
        },
        r is Some == session_visible(st@, clients@, pane),
{
    proof {
        crate::names::lemma_entries(st.sessions.entries@);
    }
    let mut i: usize = 0;
    while i < st.sessions.entries.len()
        invariant
            i <= st.sessions.entries.len(),
            forall|k: int|
                0 <= k < st.sessions.entries.len() ==> st@.sessions.contains_key(
                    (#[trigger] st.sessions.entries@[k]).0@,
                ) && st@.sessions[st.sessions.entries@[k].0@] == st.sessions.entries@[k].1@,
            forall|k: int|
                0 <= k < i ==> !(shows((#[trigger] st.sessions.entries@[k]).1@, pane) && watched(
                    clients@,
                    st.sessions.entries@[k].0@,
                )),
        decreases st.sessions.entries.len() - i,
    {
        if is_showing(&st.sessions.entries[i].1, pane) && clients.has_client(
            &st.sessions.entries[i].0,
        ) {
            assert(st@.sessions.contains_key(st.sessions.entries@[i as int].0@));
            return Some(i);
        }
        i += 1;
    }
    proof {
        if session_visible(st@, clients@, pane) {
            let k = choose|k: Seq<char>| #[trigger]
                st@.sessions.contains_key(k) && shows(st@.sessions[k], pane) && watched(
                    clients@,
                    k,
                );
            crate::names::lemma_entries(st.sessions.entries@);
            let j = choose|j: int|
                0 <= j < st.sessions.entries@.len() && (#[trigger] st.sessions.entries@[j]).0@ == k;
            assert(shows(st.sessions.entries@[j].1@, pane));
        }
    }
    None
}

/// Whether a client has the tab of a pane in the foreground. Watching the pane alone
/// does not count.
pub fn pane_session_visible(st: &ServerState, clients: &Clients, pane: PaneId) -> (r: bool)
    requires
        st.named(),
    ensures
        r == session_visible(st@, clients@, pane),
{
    visible_in(st, clients, pane).is_some()
}

/// The size that a pane has in a session that shows it to a client.
pub open spec fn home_size(
    st: StateView,
    c: Seq<(u64, ClientView)>,
    session: Seq<char>,
    pane: PaneId,
) -> Option<(u16, u16)> {
    let size = render_size(c, session);
    size_in(shown_sizes(st.sessions[session], size.0, size.1), pane, 0)
}

/// The pane gets `home` from the clients that have its tab in the foreground, in some session
/// that shows it; nothing if there is no such client.
pub open spec fn is_home(
    st: StateView,
    c: Seq<(u64, ClientView)>,
    pane: PaneId,
    home: Option<(u16, u16)>,
) -> bool {
    if session_visible(st, c, pane) {
        exists|k: Seq<char>| #[trigger]
            st.sessions.contains_key(k) && shows(st.sessions[k], pane) && watched(c, k) && home
                == home_size(st, c, k, pane)
    } else {
        home is None
    }
}

/// The size that a pane gets from the clients that have its tab in the foreground;
/// none if there is no such client, or if another pane is zoomed.
pub fn pane_home_allotment(st: &ServerState, clients: &Clients, pane: PaneId) -> (r: Option<
    (u16, u16),
>)
    requires
        st.named(),
    ensures
        is_home(st@, clients@, pane, r),
{
    match visible_in(st, clients, pane) {
        Some(i) => {
            proof {
                crate::names::lemma_entries(st.sessions.entries@);
            }
            let name: &String = &st.sessions.entries[i].0;
            let (cols, rows) = clients.session_render_size(name);
            let sizes = active_tab_content_sizes(&st.sessions.entries[i].1, cols, rows);
            let r = find_size(&sizes, pane);
            assert(st@.sessions.contains_key(name@));
            assert(r == home_size(st@, clients@, name@, pane));
            r
        },
        None => None,
    }
}

/// The smaller of two.
pub open spec fn min16(a: u16, b: u16) -> u16 {
    if a < b {
        a
    } else {
        b
    }
}

/// At least one.
pub open spec fn some16(a: u16) -> u16 {
    if a == 0 {
        1
    } else {
        a
    }
}

/// The size that a pane should have: what its session gives it, made smaller to fit
/// every cell that shows it. In the foreground the cells do not count.
pub open spec fn effective_size(
    visible: bool,
    home: Option<(u16, u16)>,
    demand: Option<(u16, u16)>,
) -> Option<(u16, u16)> {
    let wanted = if visible {
        home
    } else {
        match (home, demand) {
            (Some(h), Some(d)) => Some((min16(h.0, d.0), min16(h.1, d.1))),
            (Some(h), None) => Some(h),
            (None, d) => d,
        }
    };
    match wanted {
        Some((c, r)) => Some((some16(c), some16(r))),
        None => None,
    }
}

/// What is to be done about the size of a pane: the new size, if it changes.
pub open spec fn size_change(effective: Option<(u16, u16)>, cols: u16, rows: u16) -> Option<
    (u16, u16),
> {
    match effective {
        Some(e) => if e.0 != cols || e.1 != rows {
            Some(e)
        } else {
            None
        },
        None => None,
    }
}

fn smaller16(a: u16, b: u16) -> (r: u16)
    ensures
        r == min16(a, b),
{
    if a < b {
        a
    } else {
        b
    }
}

fn at_least_one(a: u16) -> (r: u16)
    ensures
        r == some16(a),
{
    if a == 0 {
        1
    } else {
        a
    }
}

/// The new size of a pane that has `cols` columns and `rows` rows, if it is to change.
/// A pane that nothing constrains is left alone.
pub fn recompute_pane_size(
    visible: bool,
    home: Option<(u16, u16)>,
    demand: Option<(u16, u16)>,
    cols: u16,
    rows: u16,
) -> (r: Option<(u16, u16)>)
    ensures
        r == size_change(effective_size(visible, home, demand), cols, rows),
{
    let wanted: Option<(u16, u16)> = if visible {
        home
    } else {
        match (home, demand) {
            (Some(h), Some(d)) => Some((smaller16(h.0, d.0), smaller16(h.1, d.1))),
            (Some(h), None) => Some(h),
            (None, d) => d,
        }
    };
    match wanted {
        Some((c, r)) => {
            let c: u16 = at_least_one(c);
            let r: u16 = at_least_one(r);
            if c != cols || r != rows {
                Some((c, r))
            } else {
                None
            }
        },
        None => None,
    }
}

/// What is to be done about a pane whose size is worked out anew.
#[derive(Clone, Copy, Debug, PartialEq, Eq)]
pub struct Remeasured {
    /// The new size, if it changes.
    pub size: Option<(u16, u16)>,
    /// A client has the pane in the foreground of a session.
    pub visible: bool,
    /// The clients that watch the pane are sent it again.
    pub stream: bool,
}

/// Work out the size of a pane that has `cols` columns and `rows` rows. `shown` says whether
/// it was in the foreground the last time. It is sent again if its size changes, or if it
/// came into the foreground or left it.
pub fn remeasure_pane(
    st: &ServerState,
    clients: &Clients,
    pane: PaneId,
    cols: u16,
    rows: u16,
    shown: bool,
) -> (r: Remeasured)
    requires
        st.named(),
    ensures
        r.visible == session_visible(st@, clients@, pane),
        r.stream == (r.size is Some || shown != r.visible),
        exists|home: Option<(u16, u16)>| #[trigger]
            is_home(st@, clients@, pane, home) && r.size == size_change(
                effective_size(
                    r.visible,
                    home,
                    min_demand(clients@, pane, clients@.len() as int),
                ),
                cols,
                rows,
            ),
{
    let visible = pane_session_visible(st, clients, pane);
    let home = pane_home_allotment(st, clients, pane);
    let demand = clients.subscriber_min_demand(pane);
    let size = recompute_pane_size(visible, home, demand, cols, rows);
    assert(is_home(st@, clients@, pane, home));
    Remeasured { size, visible, stream: size.is_some() || shown != visible }
}

/// The size of each pane that a session shows. While nobody looks at the session, the
/// cells that show a pane make it smaller.
pub open spec fn session_sizes(
    s: SessionView,
    c: Seq<(u64, ClientView)>,
    name: Seq<char>,
) -> Seq<PaneSize> {
    let size = render_size(c, name);
    let own = shown_sizes(s, size.0, size.1);
    Seq::new(
        own.len(),
        |i: int|
            {
                let e = effective_size(
                    watched(c, name),
                    Some((own[i].1, own[i].2)),
                    min_demand(c, own[i].0, c.len() as int),
                )->0;
                (own[i].0, e.0, e.1)
            },
    )
}

/// The size of each pane that a session shows.
pub fn resize_session_panes(s: &Session, clients: &Clients, name: &str) -> (r: Vec<PaneSize>)
    ensures
        r@ == session_sizes(s@, clients@, name@),
{
    let (cols, rows) = clients.session_render_size(name);
    let own = active_tab_content_sizes(s, cols, rows);
    let seen = clients.has_client(name);
    let mut out: Vec<PaneSize> = Vec::new();
    let mut i: usize = 0;
    while i < own.len()
        invariant
            i <= own.len(),
            out.len() == i,
            seen == watched(clients@, name@),
            own@ == shown_sizes(
                s@,
                render_size(clients@, name@).0,
                render_size(clients@, name@).1,
            ),
            forall|k: int| 0 <= k < i ==> #[trigger] out@[k] == session_sizes(
                s@,
                clients@,
                name@,
            )[k],
        decreases own.len() - i,
    {
        let (id, c, r) = own[i];
        let mut w: u16 = c;
        let mut h: u16 = r;
        if !seen {
            match clients.subscriber_min_demand(id) {
                Some((dc, dr)) => {
                    w = smaller16(w, dc);
                    h = smaller16(h, dr);
                },
                None => {},
            }
        }
        out.push((id, at_least_one(w), at_least_one(h)));
        i += 1;
    }
    assert(out@ =~= session_sizes(s@, clients@, name@));
    out
}

/// What is to be done to fit the terminals of a session to its clients.
#[derive(Debug)]
pub struct SessionResize {
    pub panes: Vec<PaneSize>,
    /// The popup's pane, which gets the size of the inside of its frame.
    pub popup: Option<PaneId>,
}

/// Fit the terminals of a session to its clients. There is nothing to do, not even for the
/// popup, where the session is not there or shows no pane.
pub fn plan_resize(st: &ServerState, clients: &Clients, name: &str) -> (r: Option<SessionResize>)
    ensures
        match r {
            Some(p) => {
                &&& st@.sessions.contains_key(name@)
                &&& p.panes@ == session_sizes(st@.sessions[name@], clients@, name@)
                &&& p.panes@.len() > 0
                &&& p.popup == st@.sessions[name@].popup
            },
            None => !st@.sessions.contains_key(name@) || session_sizes(
                st@.sessions[name@],
                clients@,
                name@,
            ).len() == 0,
        },
{
    match st.sessions.get(name) {
        Some(s) => {
            let panes = resize_session_panes(s, clients, name);
            if panes.len() == 0 {
                None
            } else {
                Some(SessionResize { panes, popup: s.popup_pane })
            }
        },
        None => None,
    }
}

/// The size of the popup's terminal: the inside of its frame.
pub open spec fn popup_size(rect: Rect) -> (u16, u16) {
    let c = content_rect(BorderStyle::ZellijStyle, rect, false);
    (some16(c.width), some16(c.height))
}

/// The size of the popup's terminal.
pub fn popup_terminal_size(rect: Rect) -> (r: (u16, u16))
    ensures
        r == popup_size(rect),
{
    let (w, h) = content_size(&BorderStyle::ZellijStyle, rect, false);
    (at_least_one(w), at_least_one(h))
}

/// A pane's terminal has the size of the area that its content is painted in, whether
/// in a box or below a tab bar, and whether it is zoomed or not.
pub proof fn law_a_terminal_is_as_large_as_it_is_painted(
    s: SessionView,
    cols: u16,
    rows: u16,
    i: int,
)
    requires
        s.current() is Some,
        0 <= i < placed(s.current()->0.shown(), pane_area(cols, rows), 0).len(),
    ensures
        ({
            let t = s.current()->0;
            let (id, rect) = placed(t.shown(), pane_area(cols, rows), 0)[i];
            let painted = if s.style is ZellijStyle {
                content_rect(BorderStyle::ZellijStyle, rect, false)
            } else {
                content_rect(BorderStyle::TmuxStyle, rect, shares_stack(t.shown(), id))
            };
            shown_sizes(s, cols, rows)[i] == (id, painted.width, painted.height)
        }),
{
}

/// A pane in the foreground has the size that its session gives it, whatever the cells
/// elsewhere that show it ask for. A pane that nobody asks anything of keeps its size.
pub proof fn law_the_foreground_decides(home: Option<(u16, u16)>, demand: Option<(u16, u16)>)
    ensures
        effective_size(true, home, demand) == effective_size(true, home, None),
        effective_size(false, None, None) is None,
{
}

/// A terminal always has at least one cell.
pub proof fn law_a_terminal_is_never_empty(
    visible: bool,
    home: Option<(u16, u16)>,
    demand: Option<(u16, u16)>,
)
    ensures
        effective_size(visible, home, demand) matches Some(e) ==> e.0 >= 1 && e.1 >= 1,
{
}

/// Setting a size twice changes nothing the second time.
pub proof fn law_a_size_is_set_once(
    effective: Option<(u16, u16)>,
    cols: u16,
    rows: u16,
)
    ensures
        size_change(effective, cols, rows) matches Some(e) ==> size_change(effective, e.0, e.1)
            is None,
{
}

} // verus!
