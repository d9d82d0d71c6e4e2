//! The connected clients together.

use crate::blit::{
    clamp_selection, highlighted, own_rect, render_pane_snapshot_selected, selected,
    snapshot_cells, snapshot_state, PaneRenderSnapshot,
};
use crate::client::{ClientState, ClientView};
use crate::config::BorderStyle;
use crate::grid::looks;
use crate::hit::MouseSelection;
use crate::layout::{texts, PaneId, Rect};
use crate::render::{attached, is_attached};
use crate::screen::{sub0, Screen};
use crate::text::same_text;
use vstd::prelude::*;

verus! {

broadcast use vstd::std_specs::hash::group_hash_axioms;

/// The width that a session is drawn at when nobody looks at it.
pub const DEFAULT_COLS: u16 = 80;

/// The height that a session is drawn at when nobody looks at it.
pub const DEFAULT_ROWS: u16 = 24;

/// The exit code that is reported when the real one is not known.
pub const EXIT_CODE_UNKNOWN: i32 = -1;

/// The connected clients, in the order in which they came, each under its own id.
#[derive(Debug)]
pub struct Clients {
    pub entries: Vec<(u64, ClientState)>,
}

impl View for Clients {
    type V = Seq<(u64, ClientView)>;

    open spec fn view(&self) -> Seq<(u64, ClientView)> {
        Seq::new(self.entries@.len(), |i: int| (self.entries@[i].0, self.entries@[i].1@))
    }
}

/// The smaller of two sizes, if both are given.
pub open spec fn least_of(a: Option<u16>, b: u16) -> Option<u16> {
    match a {
        Some(x) => Some(
            if x < b {
                x
            } else {
                b
            },
        ),
        None => Some(b),
    }
}

/// The least width of the first `n` clients of a session.
pub open spec fn least_cols(c: Seq<(u64, ClientView)>, session: Seq<char>, n: int) -> Option<u16>
    decreases n,
{
    if n <= 0 {
        None
    } else if attached(c[n - 1].1, session) {
        least_of(least_cols(c, session, n - 1), c[n - 1].1.cols)
    } else {
        least_cols(c, session, n - 1)
    }
}

/// The least height of the first `n` clients of a session.
pub open spec fn least_rows(c: Seq<(u64, ClientView)>, session: Seq<char>, n: int) -> Option<u16>
    decreases n,
{
    if n <= 0 {
        None
    } else if attached(c[n - 1].1, session) {
        least_of(least_rows(c, session, n - 1), c[n - 1].1.rows)
    } else {
        least_rows(c, session, n - 1)
    }
}

/// A size, or the default one.
pub open spec fn or_size(v: Option<u16>, default: u16) -> u16 {
    match v {
        Some(x) => x,
        None => default,
    }
}

/// The size that a session is drawn at: what fits all clients attached to it.
pub open spec fn render_size(c: Seq<(u64, ClientView)>, session: Seq<char>) -> (u16, u16) {
    (
        or_size(least_cols(c, session, c.len() as int), DEFAULT_COLS),
        or_size(least_rows(c, session, c.len() as int), DEFAULT_ROWS),
    )
}

/// A client is attached to the session.
pub open spec fn watched(c: Seq<(u64, ClientView)>, session: Seq<char>) -> bool {
    exists|i: int| 0 <= i < c.len() && attached((#[trigger] c[i]).1, session)
}

/// The least width and height of the first `n` clients.
pub open spec fn least_size(c: Seq<(u64, ClientView)>, n: int) -> (Option<u16>, Option<u16>)
    decreases n,
{
    if n <= 0 {
        (None, None)
    } else {
        let before = least_size(c, n - 1);
        (least_of(before.0, c[n - 1].1.cols), least_of(before.1, c[n - 1].1.rows))
    }
}

/// The area that the cells of a shared view are arranged in: what fits all clients, without
/// the row of the status bar.
pub open spec fn reference_area(c: Seq<(u64, ClientView)>) -> Rect {
    let size = least_size(c, c.len() as int);
    Rect {
        x: 0,
        y: 0,
        width: or_size(size.0, DEFAULT_COLS),
        height: sub0(or_size(size.1, DEFAULT_ROWS) as int, 1) as u16,
    }
}

/// The size that a client asks a pane to have.
pub open spec fn demand_of(c: ClientView, pane: PaneId) -> Option<(u16, u16)> {
    if c.subscribed_panes.contains_key(pane) {
        c.subscribed_panes[pane]
    } else {
        None
    }
}

/// The largest size that fits what the first `n` clients ask a pane to have.
pub open spec fn min_demand(c: Seq<(u64, ClientView)>, pane: PaneId, n: int) -> Option<(u16, u16)>
    decreases n,
{
    if n <= 0 {
        None
    } else {
        let before = min_demand(c, pane, n - 1);
        match (demand_of(c[n - 1].1, pane), before) {
            (Some(d), Some(b)) => Some(
                (
                    if b.0 < d.0 {
                        b.0
                    } else {
                        d.0
                    },
                    if b.1 < d.1 {
                        b.1
                    } else {
                        d.1
                    },
                ),
            ),
            (Some(d), None) => Some(d),
            (None, b) => b,
        }
    }
}

/// The clients with those of one session moved to another, or detached.
pub open spec fn moved_clients(
    c: Seq<(u64, ClientView)>,
    from: Seq<char>,
    to: Option<Seq<char>>,
) -> Seq<(u64, ClientView)> {
    Seq::new(
        c.len(),
        |i: int|
            if attached(c[i].1, from) {
                (c[i].0, ClientView { session_name: to, ..c[i].1 })
            } else {
                c[i]
            },
    )
}

/// The ids of those of the first `n` clients that are attached to a session.
pub open spec fn ids_of(c: Seq<(u64, ClientView)>, session: Seq<char>, n: int) -> Seq<u64>
    decreases n,
{
    if n <= 0 {
        Seq::empty()
    } else if attached(c[n - 1].1, session) {
        ids_of(c, session, n - 1).push(c[n - 1].0)
    } else {
        ids_of(c, session, n - 1)
    }
}

/// A pane that is gone, and its exit code.
pub type Exit = (PaneId, i32);

/// A client with the first `n` of the panes gone.
pub open spec fn bereft(c: ClientView, exits: Seq<Exit>, n: int) -> ClientView
    decreases n,
{
    if n <= 0 {
        c
    } else {
        bereft(c, exits, n - 1).without_pane(exits[n - 1].0)
    }
}

/// What a client is told of the first `n` of the panes: those that it watched.
pub open spec fn told(id: u64, c: ClientView, exits: Seq<Exit>, n: int) -> Seq<(u64, Exit)>
    decreases n,
{
    if n <= 0 {
        Seq::empty()
    } else if bereft(c, exits, n - 1).subscribed_panes.contains_key(exits[n - 1].0) {
        told(id, c, exits, n - 1).push((id, exits[n - 1]))
    } else {
        told(id, c, exits, n - 1)
    }
}

/// What the first `n` clients are told.
pub open spec fn all_told(c: Seq<(u64, ClientView)>, exits: Seq<Exit>, n: int) -> Seq<(u64, Exit)>
    decreases n,
{
    if n <= 0 {
        Seq::empty()
    } else {
        all_told(c, exits, n - 1) + told(c[n - 1].0, c[n - 1].1, exits, exits.len() as int)
    }
}

/// The clients with panes gone.
pub open spec fn all_bereft(c: Seq<(u64, ClientView)>, exits: Seq<Exit>) -> Seq<(u64, ClientView)> {
    Seq::new(c.len(), |i: int| (c[i].0, bereft(c[i].1, exits, exits.len() as int)))
}

/// The client should get what an application puts on the clipboard from a pane: its
/// own keystrokes go there, or it shows the pane.
pub open spec fn looks_at(c: ClientView, focused_in: Seq<Seq<char>>, pane: PaneId) -> bool {
    (c.session_name matches Some(s) && focused_in.contains(s)) || demand_of(c, pane) is Some
}

/// The ids of those of the first `n` clients that look at a pane.
pub open spec fn lookers(
    c: Seq<(u64, ClientView)>,
    focused_in: Seq<Seq<char>>,
    pane: PaneId,
    n: int,
) -> Seq<u64>
    decreases n,
{
    if n <= 0 {
        Seq::empty()
    } else if looks_at(c[n - 1].1, focused_in, pane) {
        lookers(c, focused_in, pane, n - 1).push(c[n - 1].0)
    } else {
        lookers(c, focused_in, pane, n - 1)
    }
}

/// The ids of those of the first `n` clients that are sent the session tree.
pub open spec fn tree_readers(c: Seq<(u64, ClientView)>, n: int) -> Seq<u64>
    decreases n,
{
    if n <= 0 {
        Seq::empty()
    } else if c[n - 1].1.session_tree_subscribed {
        tree_readers(c, n - 1).push(c[n - 1].0)
    } else {
        tree_readers(c, n - 1)
    }
}

/// The indexes of those of the first `n` clients that watch a pane.
pub open spec fn watchers(c: Seq<(u64, ClientView)>, pane: PaneId, n: int) -> Seq<int>
    decreases n,
{
    if n <= 0 {
        Seq::empty()
    } else if c[n - 1].1.subscribed_panes.contains_key(pane) {
        watchers(c, pane, n - 1).push(n - 1)
    } else {
        watchers(c, pane, n - 1)
    }
}

/// The snapshot of a pane at an offset, with a selection.
pub open spec fn is_snapshot(
    r: PaneRenderSnapshot,
    screen: Screen,
    offset: usize,
    selection: Option<MouseSelection>,
) -> bool {
    &&& snapshot_state(r, screen, offset)
    &&& looks(r.cells@) == (match selection {
        Some(sel) => if screen.cols > 0 && screen.rows > 0 {
            highlighted(
                snapshot_cells(screen, offset),
                selected(
                    clamp_selection(sel, screen.cols, screen.rows),
                    own_rect(screen),
                    BorderStyle::TmuxStyle,
                ),
            )
        } else {
            snapshot_cells(screen, offset)
        },
        None => snapshot_cells(screen, offset),
    })
}

/// The offset that a client sees a pane at: its own, as far as there is history.
pub open spec fn seen_offset(c: ClientView, pane: PaneId, screen: Screen) -> usize {
    let own = c.pane_offset(pane);
    if own < screen.max_offset() {
        own
    } else {
        screen.max_offset() as usize
    }
}

/// The selection that a client has in a watched pane.
pub open spec fn seen_selection(c: ClientView, pane: PaneId) -> Option<MouseSelection> {
    if c.pane_selection.contains_key(pane) {
        Some(c.pane_selection[pane])
    } else {
        None
    }
}

fn least(a: Option<u16>, b: u16) -> (r: Option<u16>)
    ensures
        r == least_of(a, b),
{
    match a {
        Some(x) => if x < b {
            Some(x)
        } else {
            Some(b)
        },
        None => Some(b),
    }
}

impl Clients {
    /// No client is connected.
    pub fn new() -> (r: Clients)
        ensures
            r@ == Seq::<(u64, ClientView)>::empty(),
    {
        let r = Clients { entries: Vec::new() };
        assert(r@ =~= Seq::empty());
        r
    }

    /// A client connects under a new id.
    pub fn connect(&mut self, id: u64)
        ensures
            final(self)@ == old(self)@.push((id, ClientView::fresh())),
    {
        self.entries.push((id, ClientState::new()));
        assert(self@ =~= old(self)@.push((id, ClientView::fresh())));
    }

    /// The index of the first client with an id.
    pub fn find(&self, id: u64) -> (r: Option<usize>)
        ensures
            match r {
                Some(i) => i < self@.len() && self@[i as int].0 == id && forall|k: int|
                    0 <= k < i ==> (#[trigger] self@[k]).0 != id,
                None => forall|k: int| 0 <= k < self@.len() ==> (#[trigger] self@[k]).0 != id,
            },
    {
        let mut i: usize = 0;
        while i < self.entries.len()
            invariant
                i <= self.entries.len(),
                forall|k: int| 0 <= k < i ==> (#[trigger] self@[k]).0 != id,
            decreases self.entries.len() - i,
        {
            if self.entries[i].0 == id {
                return Some(i);
            }
            i += 1;
        }
        None
    }

    /// The size that a session is drawn at.
    pub fn session_render_size(&self, session: &str) -> (r: (u16, u16))
        ensures
            r == render_size(self@, session@),
    {
        let mut cols: Option<u16> = None;
        let mut rows: Option<u16> = None;
        let mut i: usize = 0;
        while i < self.entries.len()
            invariant
                i <= self.entries.len(),
                cols == least_cols(self@, session@, i as int),
                rows == least_rows(self@, session@, i as int),
            decreases self.entries.len() - i,
        {
            assert(self@[i as int].1 == self.entries@[i as int].1@);
            if is_attached(&self.entries[i].1, session) {
                cols = least(cols, self.entries[i].1.cols);
                rows = least(rows, self.entries[i].1.rows);
            }
            i += 1;
        }
        (
            match cols {
                Some(c) => c,
                None => DEFAULT_COLS,
            },
            match rows {
                Some(r) => r,
                None => DEFAULT_ROWS,
            },
        )
    }

    /// Whether a client is attached to a session.
    pub fn has_client(&self, session: &str) -> (r: bool)
        ensures
            r == watched(self@, session@),
    {
        let mut i: usize = 0;
        while i < self.entries.len()
            invariant
                i <= self.entries.len(),
                forall|k: int| 0 <= k < i ==> !attached((#[trigger] self@[k]).1, session@),
            decreases self.entries.len() - i,
        {
            assert(self@[i as int].1 == self.entries@[i as int].1@);
            if is_attached(&self.entries[i].1, session) {
                return true;
            }
            i += 1;
        }
        false
    }

    /// The area that the cells of a shared view are arranged in: what fits all clients,
    /// without the row of the status bar.
    pub fn view_reference_area(&self) -> (r: Rect)
        ensures
            r == reference_area(self@),
    {
        let mut cols: Option<u16> = None;
        let mut rows: Option<u16> = None;
        let mut i: usize = 0;
        while i < self.entries.len()
            invariant
                i <= self.entries.len(),
                (cols, rows) == least_size(self@, i as int),
            decreases self.entries.len() - i,
        {
            assert(self@[i as int].1 == self.entries@[i as int].1@);
            cols = least(cols, self.entries[i].1.cols);
            rows = least(rows, self.entries[i].1.rows);
            i += 1;
        }
        let height: u16 = match rows {
            Some(r) => r,
            None => DEFAULT_ROWS,
        };
        Rect {
            x: 0,
            y: 0,
            width: match cols {
                Some(c) => c,
                None => DEFAULT_COLS,
            },
            height: height.saturating_sub(1),
        }
    }

    /// The largest size that fits what all clients ask a pane to have.
    pub fn subscriber_min_demand(&self, pane: PaneId) -> (r: Option<(u16, u16)>)
        ensures
            r == min_demand(self@, pane, self@.len() as int),
    {
        let mut out: Option<(u16, u16)> = None;
        let mut i: usize = 0;
        while i < self.entries.len()
            invariant
                i <= self.entries.len(),
                out == min_demand(self@, pane, i as int),
            decreases self.entries.len() - i,
        {
            assert(self@[i as int].1 == self.entries@[i as int].1@);
            let wanted: Option<(u16, u16)> = match self.entries[i].1.subscribed_panes.get(&pane) {
                Some(d) => *d,
                None => None,
            };
            assert(wanted == demand_of(self@[i as int].1, pane));
            match wanted {
                Some((c, r)) => {
                    out =
                    match out {
                        Some((oc, or)) => Some(
                            (
                                if oc < c {
                                    oc
                                } else {
                                    c
                                },
                                if or < r {
                                    or
                                } else {
                                    r
                                },
                            ),
                        ),
                        None => Some((c, r)),
                    };
                },
                None => {},
            }
            i += 1;
        }
        out
    }

    /// The clients of one session go to another, or are detached; their ids.
    pub fn retarget(&mut self, from: &str, to: Option<&str>) -> (r: Vec<u64>)
        ensures
            final(self)@ == moved_clients(
                old(self)@,
                from@,
                match to {
                    Some(t) => Some(t@),
                    None => None,
                },
            ),
            r@ == ids_of(old(self)@, from@, old(self)@.len() as int),
    {
        let ghost before = self@;
        let ghost goal = match to {
            Some(t) => Some(t@),
            None => None,
        };
        let n: usize = self.entries.len();
        let mut ids: Vec<u64> = Vec::new();
        let mut i: usize = 0;
        while i < n
            invariant
                i <= n,
                n == self.entries.len(),
                before.len() == n,
                before == old(self)@,
                goal == (match to {
                    Some(t) => Some(t@),
                    None => None,
                }),
                ids@ == ids_of(before, from@, i as int),
                forall|k: int| i <= k < n ==> #[trigger] self@[k] == before[k],
                forall|k: int|
                    0 <= k < i ==> #[trigger] self@[k] == moved_clients(before, from@, goal)[k],
            decreases n - i,
        {
            let ghost were = self.entries@;
            let ghost now = self@;
            assert(self@[i as int] == before[i as int]);
            assert(self@[i as int].1 == self.entries@[i as int].1@);
            if is_attached(&self.entries[i].1, from) {
                ids.push(self.entries[i].0);
                match to {
                    Some(t) => self.entries[i].1.attach(t),
                    None => self.entries[i].1.detach(),
                }
            }
            assert forall|k: int| 0 <= k < n && k != i implies #[trigger] self@[k] == now[k] by {
                assert(self.entries@[k] == were[k]);
            }
            i += 1;
        }
        assert(self@ =~= moved_clients(before, from@, goal));
        ids
    }

    /// Panes are gone: nothing of any client refers to them, and those that watched
    /// them are told.
    pub fn panes_exited(&mut self, exits: &Vec<Exit>) -> (r: Vec<(u64, Exit)>)
        ensures
            final(self)@ == all_bereft(old(self)@, exits@),
            r@ == all_told(old(self)@, exits@, old(self)@.len() as int),
    {
        let ghost before = self@;
        let n: usize = self.entries.len();
        let mut out: Vec<(u64, Exit)> = Vec::new();
        let mut i: usize = 0;
        while i < n
            invariant
                i <= n,
                n == self.entries.len(),
                before.len() == n,
                before == old(self)@,
                out@ == all_told(before, exits@, i as int),
                forall|k: int| i <= k < n ==> #[trigger] self@[k] == before[k],
                forall|k: int|
                    0 <= k < i ==> #[trigger] self@[k] == all_bereft(before, exits@)[k],
            decreases n - i,
        {
            let ghost were = self.entries@;
            let ghost now = self@;
            assert(self@[i as int] == before[i as int]);
            let id: u64 = self.entries[i].0;
            let mut more = lose_panes(id, &mut self.entries[i].1, exits);
            out.append(&mut more);
            assert forall|k: int| 0 <= k < n && k != i implies #[trigger] self@[k] == now[k] by {
                assert(self.entries@[k] == were[k]);
            }
            i += 1;
        }
        assert(self@ =~= all_bereft(before, exits@));
        out
    }

    /// The clients that get what an application puts on the clipboard from a pane.
    /// `focused_in` names the sessions in which the pane gets the input.
    pub fn clipboard_targets(&self, focused_in: &Vec<String>, pane: PaneId) -> (r: Vec<u64>)
        ensures
            r@ == lookers(self@, texts(focused_in@), pane, self@.len() as int),
    {
        let mut out: Vec<u64> = Vec::new();
        let mut i: usize = 0;
        while i < self.entries.len()
            invariant
                i <= self.entries.len(),
                out@ == lookers(self@, texts(focused_in@), pane, i as int),
            decreases self.entries.len() - i,
        {
            assert(self@[i as int].1 == self.entries@[i as int].1@);
            if is_looking(&self.entries[i].1, focused_in, pane) {
                out.push(self.entries[i].0);
            }
            i += 1;
        }
        out
    }

    /// The clients that are sent the session tree.
    pub fn session_tree_subscribers(&self) -> (r: Vec<u64>)
        ensures
            r@ == tree_readers(self@, self@.len() as int),
    {
        let mut out: Vec<u64> = Vec::new();
        let mut i: usize = 0;
        while i < self.entries.len()
            invariant
                i <= self.entries.len(),
                out@ == tree_readers(self@, i as int),
            decreases self.entries.len() - i,
        {
            assert(self@[i as int].1 == self.entries@[i as int].1@);
            if self.entries[i].1.session_tree_subscribed {
                out.push(self.entries[i].0);
            }
            i += 1;
        }
        out
    }

    /// What each client that watches a pane is sent: the pane as that client sees it,
    /// at its own offset and with its own selection.
    pub fn stream_pane_content(&self, pane: PaneId, screen: &Screen) -> (r: Vec<
        (u64, PaneRenderSnapshot),
    >)
        ensures
            ({
                let to = watchers(self@, pane, self@.len() as int);
                &&& r@.len() == to.len()
                &&& forall|k: int|
                    0 <= k < to.len() ==> {
                        let c = self@[to[k]].1;
                        &&& (#[trigger] r@[k]).0 == self@[to[k]].0
                        &&& is_snapshot(
                            r@[k].1,
                            *screen,
                            seen_offset(c, pane, *screen),
                            seen_selection(c, pane),
                        )
                    }
            }),
    {
        let max: usize = screen.max_scroll_offset();
        let mut out: Vec<(u64, PaneRenderSnapshot)> = Vec::new();
        let mut i: usize = 0;
        while i < self.entries.len()
            invariant
                i <= self.entries.len(),
                max == screen.max_offset(),
                out@.len() == watchers(self@, pane, i as int).len(),
                forall|k: int|
                    0 <= k < out@.len() ==> {
                        let at = watchers(self@, pane, i as int)[k];
                        let c = self@[at].1;
                        &&& (#[trigger] out@[k]).0 == self@[at].0
                        &&& is_snapshot(
                            out@[k].1,
                            *screen,
                            seen_offset(c, pane, *screen),
                            seen_selection(c, pane),
                        )
                    },
            decreases self.entries.len() - i,
        {
            assert(self@[i as int].1 == self.entries@[i as int].1@);
            let c: &ClientState = &self.entries[i].1;
            if c.subscribed_panes.contains_key(&pane) {
                let own: usize = match c.pane_scroll.get(&pane) {
                    Some(o) => *o,
                    None => 0,
                };
                let offset: usize = if own < max {
                    own
                } else {
                    max
                };
                assert(offset == seen_offset(c@, pane, *screen));
                let selection = c.pane_selection.get(&pane);
                let snap = render_pane_snapshot_selected(screen, offset, selection);
                assert(is_snapshot(snap, *screen, offset, seen_selection(c@, pane)));
                out.push((self.entries[i].0, snap));
            }
            i += 1;
        }
        out
    }
}

fn lose_panes(id: u64, c: &mut ClientState, exits: &Vec<Exit>) -> (r: Vec<(u64, Exit)>)
    ensures
        final(c)@ == bereft(old(c)@, exits@, exits@.len() as int),
        r@ == told(id, old(c)@, exits@, exits@.len() as int),
{
    let mut out: Vec<(u64, Exit)> = Vec::new();
    let mut i: usize = 0;
    while i < exits.len()
        invariant
            i <= exits.len(),
            c@ == bereft(old(c)@, exits@, i as int),
            out@ == told(id, old(c)@, exits@, i as int),
        decreases exits.len() - i,
    {
        if c.unsubscribe_pane(exits[i].0) {
            out.push((id, exits[i]));
        }
        i += 1;
    }
    out
}

fn is_looking(c: &ClientState, focused_in: &Vec<String>, pane: PaneId) -> (r: bool)
    ensures
        r == looks_at(c@, texts(focused_in@), pane),
{
    match c.subscribed_panes.get(&pane) {
        Some(d) => {
            if d.is_some() {
                return true;
            }
        },
        None => {},
    }
    match &c.session_name {
        Some(name) => {
            let mut i: usize = 0;
            while i < focused_in.len()
                invariant
                    i <= focused_in.len(),
                    c@.session_name == Some(name@),
                    forall|k: int| 0 <= k < i ==> (#[trigger] focused_in@[k])@ != name@,
                decreases focused_in.len() - i,
            {
                if same_text(&focused_in[i], name) {
                    assert(texts(focused_in@)[i as int] == name@);
                    return true;
                }
                i += 1;
            }
            assert forall|k: int| 0 <= k < texts(focused_in@).len() implies texts(focused_in@)[k]
                != name@ by {
                assert(focused_in@[k]@ != name@);
            }
            false
        },
        None => false,
    }
}

// ---------------------------------------------------------------------------
// Laws
// ---------------------------------------------------------------------------

proof fn lemma_size_fits(c: Seq<(u64, ClientView)>, session: Seq<char>, n: int, i: int)
    requires
        0 <= i < n <= c.len(),
        attached(c[i].1, session),
    ensures
        least_cols(c, session, n) matches Some(w) && w <= c[i].1.cols,
        least_rows(c, session, n) matches Some(h) && h <= c[i].1.rows,
    decreases n,
{
    if i < n - 1 {
        lemma_size_fits(c, session, n - 1, i);
    }
}

/// A session is never drawn larger than the terminal of a client that shows it.
pub proof fn law_a_session_fits_every_client(c: Seq<(u64, ClientView)>, session: Seq<char>, i: int)
    requires
        0 <= i < c.len(),
        attached(c[i].1, session),
    ensures
        render_size(c, session).0 <= c[i].1.cols,
        render_size(c, session).1 <= c[i].1.rows,
{
    lemma_size_fits(c, session, c.len() as int, i);
}

/// A client alone in its session sees it at its own size.
pub proof fn law_a_lone_client_sets_the_size(c: ClientView, id: u64, session: Seq<char>)
    requires
        attached(c, session),
    ensures
        render_size(seq![(id, c)], session) == (c.cols, c.rows),
{
    reveal_with_fuel(least_cols, 3);
    reveal_with_fuel(least_rows, 3);
}

proof fn lemma_demand_fits(c: Seq<(u64, ClientView)>, pane: PaneId, n: int, i: int)
    requires
        0 <= i < n <= c.len(),
        demand_of(c[i].1, pane) is Some,
    ensures
        min_demand(c, pane, n) matches Some(d) && d.0 <= (demand_of(c[i].1, pane)->0).0 && d.1 <= (
        demand_of(c[i].1, pane)->0).1,
    decreases n,
{
    if i < n - 1 {
        lemma_demand_fits(c, pane, n - 1, i);
    }
}

/// A pane that fits the demand fits every cell that shows it; a client that only
/// watches sets no demand.
pub proof fn law_a_demand_fits_every_viewer(c: Seq<(u64, ClientView)>, pane: PaneId, i: int)
    requires
        0 <= i < c.len(),
    ensures
        demand_of(c[i].1, pane) matches Some(d) ==> min_demand(c, pane, c.len() as int) matches Some(
            m,
        ) && m.0 <= d.0 && m.1 <= d.1,
{
    if demand_of(c[i].1, pane) is Some {
        lemma_demand_fits(c, pane, c.len() as int, i);
    }
}

proof fn lemma_bereft(c: ClientView, exits: Seq<Exit>, n: int, k: int)
    requires
        0 <= k < n <= exits.len(),
    ensures
        !bereft(c, exits, n).subscribed_panes.contains_key(exits[k].0),
    decreases n,
{
    if k < n - 1 {
        lemma_bereft(c, exits, n - 1, k);
    }
}

proof fn lemma_still_watched(c: ClientView, exits: Seq<Exit>, n: int, pane: PaneId)
    requires
        0 <= n <= exits.len(),
        forall|j: int| 0 <= j < n ==> (#[trigger] exits[j]).0 != pane,
    ensures
        bereft(c, exits, n).subscribed_panes.contains_key(pane)
            == c.subscribed_panes.contains_key(pane),
    decreases n,
{
    if n > 0 {
        lemma_still_watched(c, exits, n - 1, pane);
        assert(exits[n - 1].0 != pane);
    }
}

proof fn lemma_told(id: u64, c: ClientView, exits: Seq<Exit>, n: int, k: int)
    requires
        0 <= k < n <= exits.len(),
        c.subscribed_panes.contains_key(exits[k].0),
        forall|j: int| 0 <= j < k ==> (#[trigger] exits[j]).0 != exits[k].0,
    ensures
        told(id, c, exits, n).contains((id, exits[k])),
    decreases n,
{
    let list = told(id, c, exits, n);
    let before = told(id, c, exits, n - 1);
    if k == n - 1 {
        lemma_still_watched(c, exits, k, exits[k].0);
        assert(list[list.len() - 1] == (id, exits[k]));
    } else {
        lemma_told(id, c, exits, n - 1, k);
        let j = choose|j: int| 0 <= j < before.len() && before[j] == (id, exits[k]);
        assert(list[j] == (id, exits[k]));
    }
}

/// Nobody is forgotten: a client that watched a pane which is gone is told so, and no
/// longer watches it.
pub proof fn law_every_watcher_of_a_gone_pane_is_told(
    id: u64,
    c: ClientView,
    exits: Seq<Exit>,
    k: int,
)
    requires
        0 <= k < exits.len(),
        c.subscribed_panes.contains_key(exits[k].0),
        forall|j: int| 0 <= j < k ==> (#[trigger] exits[j]).0 != exits[k].0,
    ensures
        told(id, c, exits, exits.len() as int).contains((id, exits[k])),
        !bereft(c, exits, exits.len() as int).subscribed_panes.contains_key(exits[k].0),
{
    lemma_told(id, c, exits, exits.len() as int, k);
    lemma_bereft(c, exits, exits.len() as int, k);
}

/// After the clients of a session have gone elsewhere none is left in it, unless they
/// went to where they were.
pub proof fn law_a_session_that_is_gone_has_no_clients(
    c: Seq<(u64, ClientView)>,
    from: Seq<char>,
    to: Option<Seq<char>>,
)
    requires
        to != Some(from),
    ensures
        !watched(moved_clients(c, from, to), from),
{
}

} // verus!
