//! What a message of a client leads to.

use crate::client::{yanked, ClientState, ClientView, Drag, PaneOutcome, PaneOutcomeView};
use crate::clients::{reference_area, Clients};
use crate::command::{
    commanded, done, fails, handle_command, handle_create_session, idle, is_client, moved_to,
    redrawn, renewed, session_made, Audience, Gone, GoneView, Plan, PlanView, RemuxCommand,
    SessionDefaults,
};
use crate::layout::{copy_opt, opt_text, texts, FocusDirection, PaneId, Rect};
use crate::mouse::{
    forwarded, opt_bytes, routed, wheel_bytes, MouseGesture, MouseRoute, WheelAction, WheelView,
};
use crate::pointer::{
    click_effect, clicked_report, drag_outcome, handle_mouse_click, handle_mouse_drag,
    handle_mouse_scroll, wheel_result, ClickEffect, DragOutcome, DragOutcomeView, Surface,
};
use crate::screen::Screen;
use crate::session::clicked;
use crate::state::{ServerState, StateError, StateView};
use crate::text::append;
use crate::views::{new_cells, NewCell, ViewChange, ViewChangeView};
use std::collections::HashMap;
use vstd::prelude::*;

verus! {

broadcast use vstd::std_specs::hash::group_hash_axioms;

// ---------------------------------------------------------------------------
// Messages and replies
// ---------------------------------------------------------------------------

/// A message of a client.
#[derive(Debug)]
pub enum ClientMessage {
    Attach { session_name: String },
    Detach,
    Input { data: Vec<u8> },
    Resize { cols: u16, rows: u16 },
    Command(RemuxCommand),
    CreateSession { name: String, folder: Option<String> },
    ListSessions,
    KillSession { name: String },
    ListSessionTree,
    SubscribeSessionTree,
    UnsubscribeSessionTree,
    ResurrectSession { name: String },
    RequestScrollback,
    SearchInfo { current: usize, total: usize },
    ModeChanged { mode: String },
    /// With a pane, the position is a cell of the pane's content.
    MouseClick { x: u16, y: u16, pane: Option<PaneId>, release: bool },
    MouseDrag { drag: Drag, pane: Option<PaneId> },
    ScrollDelta { delta: i32 },
    MouseScroll { x: u16, y: u16, up: bool },
    ScrollReset,
    RequestScrollbackInfo,
    SubscribePane { pane_id: PaneId, cols: u16, rows: u16, size_demand: bool },
    UnsubscribePane { pane_id: PaneId },
    InputToPane { pane_id: PaneId, data: Vec<u8> },
    ScrollPane { pane_id: PaneId, up: bool, lines: u16, x: u16, y: u16 },
    ViewCreate { name: String },
    ViewDelete { id: u64 },
    ViewRename { id: u64, name: String },
    ViewAddCells { id: u64, cells: Vec<NewCell> },
    ViewRemoveCell { id: u64, cell_id: u64 },
    ViewSetFocus { id: u64, cell_id: u64 },
    ViewCycleLayout { id: u64 },
    ViewToggleZoom { id: u64 },
    ViewSetMaster { id: u64 },
    ViewResizeCell { id: u64, cell_id: u64, dir: FocusDirection, amount: u16 },
    ViewMoveCell { id: u64, cell_id: u64, dir: FocusDirection },
}

/// Whose terminals are measured again.
#[derive(Clone, Copy, Debug, PartialEq, Eq)]
pub enum Measure {
    Nothing,
    Pane(PaneId),
    /// All that some client watches.
    Watched,
}

/// What a message leads to outside of the state.
#[derive(Debug)]
pub struct Reply {
    pub plan: Plan,
    /// What the client did wrong.
    pub error: Option<String>,
    /// The pane whose history goes away.
    pub clear: Option<PaneId>,
    /// The client is told that a pane is gone.
    pub exited: Option<PaneId>,
    /// The client is told how many lines its pane has.
    pub lines: Option<usize>,
    /// The client is sent the history of a pane.
    pub history: Option<PaneId>,
    /// Text for the client's clipboard.
    pub copied: Option<String>,
    /// The pane is drawn again for the clients that watch it.
    pub stream: Option<PaneId>,
    pub measure: Measure,
    /// The session tree has changed.
    pub tree_changed: bool,
    /// The client is sent the session tree.
    pub send_tree: bool,
    /// A dormant session is to come back.
    pub resurrect: Option<String>,
    /// The views are to be changed; all clients are told.
    pub views: Option<ViewChange>,
}

/// A reply as a mathematical value.
#[verifier::ext_equal]
pub struct ReplyView {
    pub plan: PlanView,
    pub error: Option<Seq<char>>,
    pub clear: Option<PaneId>,
    pub exited: Option<PaneId>,
    pub lines: Option<usize>,
    pub history: Option<PaneId>,
    pub copied: Option<Seq<char>>,
    pub stream: Option<PaneId>,
    pub measure: Measure,
    pub tree_changed: bool,
    pub send_tree: bool,
    pub resurrect: Option<Seq<char>>,
    pub views: Option<ViewChangeView>,
}

impl View for Reply {
    type V = ReplyView;

    open spec fn view(&self) -> ReplyView {
        ReplyView {
            plan: self.plan@,
            error: opt_text(self.error),
            clear: self.clear,
            exited: self.exited,
            lines: self.lines,
            history: self.history,
            copied: opt_text(self.copied),
            stream: self.stream,
            measure: self.measure,
            tree_changed: self.tree_changed,
            send_tree: self.send_tree,
            resurrect: opt_text(self.resurrect),
            views: match self.views {
                Some(c) => Some(c@),
                None => None,
            },
        }
    }
}

/// A reply that is only a plan.
pub open spec fn only(plan: PlanView) -> ReplyView {
    ReplyView {
        plan,
        error: None,
        clear: None,
        exited: None,
        lines: None,
        history: None,
        copied: None,
        stream: None,
        measure: Measure::Nothing,
        tree_changed: false,
        send_tree: false,
        resurrect: None,
        views: None,
    }
}

impl Reply {
    pub fn only(plan: Plan) -> (r: Reply)
        ensures
            r@ == only(plan@),
    {
        Reply {
            plan,
            error: None,
            clear: None,
            exited: None,
            lines: None,
            history: None,
            copied: None,
            stream: None,
            measure: Measure::Nothing,
            tree_changed: false,
            send_tree: false,
            resurrect: None,
            views: None,
        }
    }
}

/// What a message comes to.
#[verifier::ext_equal]
pub struct Turn {
    pub st: StateView,
    pub clients: Seq<(u64, ClientView)>,
    pub reply: ReplyView,
}

// ---------------------------------------------------------------------------
// One client
// ---------------------------------------------------------------------------

/// One client changed.
pub open spec fn with_client(clients: Seq<(u64, ClientView)>, me: int, v: ClientView) -> Seq<
    (u64, ClientView),
> {
    clients.update(me, (clients[me].0, v))
}

/// The session of a client, or none.
pub open spec fn session_of(v: ClientView) -> Seq<char> {
    match v.session_name {
        Some(s) => s,
        None => Seq::empty(),
    }
}

proof fn lemma_client_changed(before: Clients, after: Clients, me: int)
    requires
        0 <= me < before.entries@.len(),
        after.entries@.len() == before.entries@.len(),
        after.entries@[me].0 == before.entries@[me].0,
        forall|k: int|
            0 <= k < before.entries@.len() && k != me ==> #[trigger] after.entries@[k]
                == before.entries@[k],
    ensures
        after@ == with_client(before@, me, after.entries@[me].1@),
{
    assert(after@ =~= with_client(before@, me, after.entries@[me].1@));
}

/// The client is sent a full frame, if it has a session.
pub open spec fn own_frame(v: ClientView) -> PlanView {
    match v.session_name {
        Some(s) => PlanView { draw: Audience::Requester, ..idle(s) },
        None => idle(Seq::empty()),
    }
}

pub(crate) fn empty_plan() -> (r: Plan)
    ensures
        r@ == idle(Seq::empty()),
{
    proof {
        reveal_strlit("");
    }
    assert(""@ =~= Seq::empty());
    Plan::idle("")
}

fn frame_for(c: &ClientState) -> (r: Plan)
    ensures
        r@ == own_frame(c@),
{
    match &c.session_name {
        Some(s) => {
            let mut p = Plan::idle(s);
            p.draw = Audience::Requester;
            p
        },
        None => empty_plan(),
    }
}

// ---------------------------------------------------------------------------
// Attaching
// ---------------------------------------------------------------------------

/// What a client is told that asks for a session that is not there.
pub open spec fn not_found(session: Seq<char>) -> Seq<char> {
    "session '"@ + session + "' not found"@
}

fn not_found_text(session: &str) -> (r: String)
    ensures
        r@ == not_found(session@),
{
    let mut r = "session '".to_owned();
    append(&mut r, session);
    append(&mut r, "' not found");
    r
}

/// The session with the mark of activity gone from the tab that it shows.
pub open spec fn quieted(st: StateView, s: Seq<char>) -> StateView {
    match st.tab_at(s, None) {
        Some(k) => st.with(s, st.sessions[s].showing(k)),
        None => st,
    }
}

/// A client attached to a session. All its clients get a full frame next, since the
/// session may be drawn at another size from now on.
pub open spec fn attached_to(
    st: StateView,
    clients: Seq<(u64, ClientView)>,
    me: int,
    s: Seq<char>,
) -> Turn {
    if !st.sessions.contains_key(s) {
        Turn {
            st,
            clients,
            reply: ReplyView {
                error: Some(not_found(s)),
                tree_changed: true,
                ..only(idle(s))
            },
        }
    } else {
        Turn {
            st: quieted(st, s),
            clients: moved_to(clients, me, s),
            reply: ReplyView {
                tree_changed: true,
                ..only(
                    PlanView {
                        resize: true,
                        invalidate: true,
                        draw: Audience::Requester,
                        forward: true,
                        ..idle(s)
                    },
                )
            },
        }
    }
}

fn handle_attach(st: &mut ServerState, clients: &mut Clients, me: usize, session: &str) -> (r:
    Reply)
    requires
        old(st).sound(),
        me < old(clients)@.len(),
    ensures
        final(st).sound(),
        (Turn { st: final(st)@, clients: final(clients)@, reply: r@ }) == attached_to(
            old(st)@,
            old(clients)@,
            me as int,
            session@,
        ),
{
    if !st.sessions.contains_key(session) {
        let mut r = Reply::only(Plan::idle(session));
        r.error = Some(not_found_text(session));
        r.tree_changed = true;
        return r;
    }
    let ghost before = *clients;
    clients.entries[me].1.attach(session);
    proof {
        lemma_client_changed(before, *clients, me as int);
    }
    match st.find_tab(session, None) {
        Some(k) => {
            proof {
                let s = st@.sessions[session@];
                assert(s.sound());
                crate::state::lemma_tabs_counted(*st, session@);
                crate::edit_laws::law_a_session_stays_sound(
                    s,
                    k as int,
                    crate::edits::TabChange::NextLayout,
                    0,
                    0,
                    crate::layout_modes::LayoutMode::Bsp(crate::layout_modes::BspLayout),
                    Seq::empty(),
                    0,
                );
                crate::edit_laws::law_the_server_stays_sound(
                    st@,
                    session@,
                    s.showing(k as int),
                );
            }
            let _ = st.goto_tab(session, k);
        },
        None => {},
    }
    let mut p = Plan::idle(session);
    p.resize = true;
    p.invalidate = true;
    p.draw = Audience::Requester;
    p.forward = true;
    let mut r = Reply::only(p);
    r.tree_changed = true;
    r
}

// ---------------------------------------------------------------------------
// Typing
// ---------------------------------------------------------------------------

/// The key that clears a shell's screen.
pub const CLEAR_KEY: u8 = 0x0c;

/// The pane that the client's input goes to.
pub open spec fn input_of(st: StateView, v: ClientView) -> Option<PaneId> {
    match v.session_name {
        Some(s) => if st.sessions.contains_key(s) {
            st.sessions[s].target()
        } else {
            None
        },
        None => None,
    }
}

fn input_target(st: &ServerState, c: &ClientState) -> (r: Option<PaneId>)
    ensures
        r == input_of(st@, c@),
{
    match &c.session_name {
        Some(s) => st.input_target(s),
        None => None,
    }
}

/// The screen of a pane that is alive.
pub open spec fn alive(screens: Map<PaneId, &Screen>, pane: PaneId) -> Option<Screen> {
    if screens.contains_key(pane) {
        Some(*screens[pane])
    } else {
        None
    }
}

/// Input from a client. It goes to the pane that owns the input; the key that clears a
/// shell's screen drops the history with it, unless the alternate screen is shown; and
/// the client's view returns to the live tail.
pub open spec fn typed(
    st: StateView,
    v: ClientView,
    screens: Map<PaneId, &Screen>,
    data: Seq<u8>,
) -> (ClientView, ReplyView) {
    let after = if v.typing_ends_scroll() {
        v.live()
    } else {
        v
    };
    let frame = if v.typing_ends_scroll() {
        own_frame(v)
    } else {
        idle(session_of(v))
    };
    match input_of(st, v) {
        Some(p) => match alive(screens, p) {
            Some(screen) => (
                after,
                ReplyView {
                    clear: if data.contains(CLEAR_KEY) && !screen.alt_screen_active {
                        Some(p)
                    } else {
                        None
                    },
                    ..only(PlanView { keys: Some((p, data)), ..frame })
                },
            ),
            None => (after, only(frame)),
        },
        None => (after, only(frame)),
    }
}

fn holds_byte(data: &Vec<u8>, b: u8) -> (r: bool)
    ensures
        r == data@.contains(b),
{
    let mut i: usize = 0;
    while i < data.len()
        invariant
            i <= data.len(),
            forall|k: int| 0 <= k < i ==> data@[k] != b,
        decreases data.len() - i,
    {
        if data[i] == b {
            return true;
        }
        i += 1;
    }
    false
}

fn handle_input(
    st: &ServerState,
    c: &mut ClientState,
    screens: &HashMap<PaneId, &Screen>,
    data: Vec<u8>,
) -> (r: Reply)
    ensures
        (final(c)@, r@) == typed(st@, old(c)@, screens@, data@),
{
    let target = input_target(st, c);
    let frame = frame_for(c);
    let quiet = match &c.session_name {
        Some(s) => Plan::idle(s),
        None => empty_plan(),
    };
    let plan = if c.snap_client_to_live_tail() {
        frame
    } else {
        quiet
    };
    let mut r = Reply::only(plan);
    match target {
        Some(p) => match screens.get(&p) {
            Some(screen) => {
                if holds_byte(&data, CLEAR_KEY) && !screen.alt_screen_active {
                    r.clear = Some(p);
                }
                r.plan.keys = Some((p, data));
            },
            None => {},
        },
        None => {},
    }
    r
}

// ---------------------------------------------------------------------------
// The mouse over the session
// ---------------------------------------------------------------------------

/// The focused pane of the session that the client is attached to.
pub open spec fn focus_of(st: StateView, v: ClientView) -> Option<PaneId> {
    match v.session_name {
        Some(s) => st.focus_of(s),
        None => None,
    }
}

fn focused_pane(st: &ServerState, c: &ClientState) -> (r: Option<PaneId>)
    ensures
        r == focus_of(st@, c@),
{
    match &c.session_name {
        Some(s) => st.focused(s),
        None => None,
    }
}

/// A click on the session's screen.
pub open spec fn session_clicked(
    st: StateView,
    v: ClientView,
    surface: Surface,
    x: u16,
    y: u16,
    release: bool,
) -> (StateView, ClientView, ReplyView) {
    let after = v.clicked(release);
    match v.session_name {
        None => (st, after, only(idle(Seq::empty()))),
        Some(s) => {
            let keys = clicked_report(surface, v.copying(), x, y, release);
            let effect = click_effect(surface.under(x, y), surface.popup is Some, release);
            if st.sessions.contains_key(s) {
                let (session, draw) = clicked(st.sessions[s], effect);
                (
                    st.with(s, session),
                    after,
                    ReplyView {
                        tree_changed: draw && !(effect is GotoTab),
                        ..only(
                            PlanView {
                                keys,
                                draw: if draw {
                                    Audience::Everyone
                                } else {
                                    Audience::Nobody
                                },
                                ..idle(s)
                            },
                        )
                    },
                )
            } else {
                (
                    st,
                    after,
                    only(
                        PlanView {
                            keys,
                            draw: if effect is GotoTab {
                                Audience::Everyone
                            } else {
                                Audience::Nobody
                            },
                            ..idle(s)
                        },
                    ),
                )
            }
        },
    }
}

fn click_session(
    st: &mut ServerState,
    c: &mut ClientState,
    surface: &Surface,
    x: u16,
    y: u16,
    release: bool,
) -> (r: Reply)
    requires
        old(st).sound(),
    ensures
        final(st).sound(),
        (final(st)@, final(c)@, r@) == session_clicked(
            old(st)@,
            old(c)@,
            *surface,
            x,
            y,
            release,
        ),
{
    let name: Option<String> = copy_opt(&c.session_name);
    let out = handle_mouse_click(c, surface, x, y, release);
    let s = match name {
        Some(s) => s,
        None => {
            return Reply::only(empty_plan());
        },
    };
    let mut p = Plan::idle(&s);
    p.keys = out.report;
    let effect = out.effect;
    let is_tab = match effect {
        ClickEffect::GotoTab(_) => true,
        _ => false,
    };
    let ghost before = st@;
    proof {
        assert(before.sessions.contains_key(s@) ==> before.sessions[s@].sound());
        if before.sessions.contains_key(s@) {
            crate::state::lemma_tabs_counted(*st, s@);
            lemma_click_is_sound(before.sessions[s@], effect);
            crate::edit_laws::law_the_server_stays_sound(
                before,
                s@,
                clicked(before.sessions[s@], effect).0,
            );
        }
    }
    let mut tree = false;
    match st.sessions.get_mut(&s) {
        Some(x) => {
            if x.apply_click(effect) {
                p.draw = Audience::Everyone;
                tree = !is_tab;
            }
        },
        None => {
            if is_tab {
                p.draw = Audience::Everyone;
            }
        },
    }
    let mut r = Reply::only(p);
    r.tree_changed = tree;
    r
}

proof fn lemma_click_is_sound(s: crate::session::SessionView, effect: ClickEffect)
    requires
        s.sound(),
        s.tabs.len() <= usize::MAX,
    ensures
        clicked(s, effect).0.sound(),
{
    let t = s.tabs[s.active as int];
    match effect {
        ClickEffect::GotoTab(i) => {
            if i < s.tabs.len() {
                crate::edit_laws::law_a_session_stays_sound(
                    s,
                    i as int,
                    crate::edits::TabChange::NextLayout,
                    0,
                    0,
                    crate::layout_modes::LayoutMode::Bsp(crate::layout_modes::BspLayout),
                    Seq::empty(),
                    0,
                );
            }
        },
        ClickEffect::Activate(p) => {
            crate::tab_laws::law_an_activated_tab_stays_sound(t, p);
        },
        _ => {},
    }
}

/// A drag over the session's screen.
pub open spec fn session_dragged(
    st: StateView,
    v: ClientView,
    surface: Surface,
    auto_yank: bool,
    d: Drag,
) -> (ClientView, ReplyView) {
    let (after, outcome) = drag_outcome(v, surface, focus_of(st, v), auto_yank, d);
    (
        after,
        match outcome {
            DragOutcomeView::Ignored => only(idle(session_of(v))),
            DragOutcomeView::Forward(p, bytes) => only(
                PlanView {
                    keys: match bytes {
                        Some(b) => Some((p, b)),
                        None => None,
                    },
                    ..idle(session_of(v))
                },
            ),
            DragOutcomeView::Select(text) => ReplyView { copied: text, ..only(own_frame(v)) },
        },
    )
}

fn quiet_plan(c: &ClientState) -> (r: Plan)
    ensures
        r@ == idle(session_of(c@)),
{
    match &c.session_name {
        Some(s) => Plan::idle(s),
        None => empty_plan(),
    }
}

fn drag_session(
    st: &ServerState,
    c: &mut ClientState,
    surface: &Surface,
    auto_yank: bool,
    d: Drag,
) -> (r: Reply)
    ensures
        (final(c)@, r@) == session_dragged(st@, old(c)@, *surface, auto_yank, d),
{
    let focused = focused_pane(st, c);
    let frame = frame_for(c);
    let quiet = quiet_plan(c);
    match handle_mouse_drag(c, surface, focused, auto_yank, d) {
        DragOutcome::Ignored => Reply::only(quiet),
        DragOutcome::Forward(p, bytes) => {
            let mut plan = quiet;
            match bytes {
                Some(b) => {
                    plan.keys = Some((p, b));
                },
                None => {},
            }
            Reply::only(plan)
        },
        DragOutcome::Select(text) => {
            let mut r = Reply::only(frame);
            r.copied = text;
            r
        },
    }
}

/// The pane that owns the client's input, if it is alive.
pub open spec fn scroll_target(st: StateView, v: ClientView, screens: Map<PaneId, &Screen>) -> Option<
    (PaneId, Screen),
> {
    match input_of(st, v) {
        Some(p) => match alive(screens, p) {
            Some(s) => Some((p, s)),
            None => None,
        },
        None => None,
    }
}

/// The client's view scrolled. It gets a frame if the view moved.
pub open spec fn scrolled(
    st: StateView,
    v: ClientView,
    screens: Map<PaneId, &Screen>,
    delta: int,
) -> (ClientView, ReplyView) {
    let after = v.scrolled(delta, scroll_target(st, v, screens));
    (
        after,
        only(
            if after.scroll_offset != v.scroll_offset {
                own_frame(v)
            } else {
                idle(session_of(v))
            },
        ),
    )
}

fn scroll(st: &ServerState, c: &mut ClientState, screens: &HashMap<PaneId, &Screen>, delta: i32) -> (r:
    Reply)
    ensures
        (final(c)@, r@) == scrolled(st@, old(c)@, screens@, delta as int),
{
    let frame = frame_for(c);
    let quiet = quiet_plan(c);
    let target: Option<(PaneId, &Screen)> = match input_target(st, c) {
        Some(p) => match screens.get(&p) {
            Some(s) => Some((p, *s)),
            None => None,
        },
        None => None,
    };
    if c.handle_scroll_delta(delta, target) {
        Reply::only(frame)
    } else {
        Reply::only(quiet)
    }
}

/// A wheel notch on the session's screen.
pub open spec fn wheeled(
    st: StateView,
    v: ClientView,
    surface: Surface,
    x: u16,
    y: u16,
    up: bool,
) -> (ClientView, ReplyView) {
    match wheel_result(v, surface, input_of(st, v), x, y, up) {
        Some((p, WheelView::Send(bytes))) => (
            v,
            only(PlanView { keys: Some((p, bytes)), ..idle(session_of(v)) }),
        ),
        Some((_, WheelView::Scroll(delta))) => scrolled(st, v, surface.screens@, delta),
        None => (v, only(idle(session_of(v)))),
    }
}

fn wheel(st: &ServerState, c: &mut ClientState, surface: &Surface, x: u16, y: u16, up: bool) -> (r:
    Reply)
    ensures
        (final(c)@, r@) == wheeled(st@, old(c)@, *surface, x, y, up),
{
    let input = input_target(st, c);
    let quiet = quiet_plan(c);
    match handle_mouse_scroll(c, surface, input, x, y, up) {
        Some((p, WheelAction::Send(bytes))) => {
            let mut plan = quiet;
            plan.keys = Some((p, bytes));
            Reply::only(plan)
        },
        Some((_, WheelAction::Scroll(delta))) => scroll(st, c, &surface.screens, delta),
        None => Reply::only(quiet),
    }
}

// ---------------------------------------------------------------------------
// Watched panes
// ---------------------------------------------------------------------------

/// What an outcome on a watched pane leads to.
pub open spec fn pane_reply(v: ClientView, pane: PaneId, outcome: PaneOutcomeView) -> ReplyView {
    match outcome {
        PaneOutcomeView::Ignored => only(idle(session_of(v))),
        PaneOutcomeView::Forward(bytes) => only(
            PlanView {
                keys: match bytes {
                    Some(b) => Some((pane, b)),
                    None => None,
                },
                ..idle(session_of(v))
            },
        ),
        PaneOutcomeView::Repaint(text) => ReplyView {
            copied: text,
            stream: Some(pane),
            ..only(idle(session_of(v)))
        },
    }
}

fn reply_for(quiet: Plan, pane: PaneId, outcome: PaneOutcome) -> (r: Reply)
    ensures
        forall|v: ClientView|
            idle(session_of(v)) == quiet@ ==> r@ == #[trigger] pane_reply(v, pane, outcome@),
{
    match outcome {
        PaneOutcome::Ignored => Reply::only(quiet),
        PaneOutcome::Forward(bytes) => {
            let mut plan = quiet;
            match bytes {
                Some(b) => {
                    plan.keys = Some((pane, b));
                },
                None => {},
            }
            Reply::only(plan)
        },
        PaneOutcome::Repaint(text) => {
            let mut r = Reply::only(quiet);
            r.copied = text;
            r.stream = Some(pane);
            r
        },
    }
}

/// A click inside a watched pane.
pub open spec fn pane_clicked(
    v: ClientView,
    screen: Option<Screen>,
    pane: PaneId,
    x: u16,
    y: u16,
    release: bool,
) -> (ClientView, ReplyView) {
    if !v.subscribed_panes.contains_key(pane) {
        (v, only(idle(session_of(v))))
    } else {
        (
            v.pane_clicked(pane, release),
            ReplyView {
                stream: if !release && v.pane_selection.contains_key(pane) {
                    Some(pane)
                } else {
                    None
                },
                ..pane_reply(
                    v,
                    pane,
                    PaneOutcomeView::Forward(
                        crate::client::click_report(
                            screen,
                            v.copying(),
                            release,
                            crate::client::after(x),
                            crate::client::after(y),
                        ),
                    ),
                )
            },
        )
    }
}

fn click_pane(
    c: &mut ClientState,
    screens: &HashMap<PaneId, &Screen>,
    pane: PaneId,
    x: u16,
    y: u16,
    release: bool,
) -> (r: Reply)
    ensures
        (final(c)@, r@) == pane_clicked(old(c)@, alive(screens@, pane), pane, x, y, release),
{
    let quiet = quiet_plan(c);
    let screen: Option<&Screen> = match screens.get(&pane) {
        Some(s) => Some(*s),
        None => None,
    };
    let (had, bytes) = c.pane_mouse_click(pane, screen, release, x, y);
    let ghost sent = opt_bytes(bytes);
    let mut r = reply_for(quiet, pane, PaneOutcome::Forward(bytes));
    assert(r@ == pane_reply(old(c)@, pane, PaneOutcomeView::Forward(sent)));
    if had {
        r.stream = Some(pane);
    }
    r
}

/// What a drag inside a watched pane does.
pub open spec fn pane_drag(
    v: ClientView,
    screen: Option<Screen>,
    pane: PaneId,
    d: Drag,
    auto_yank: bool,
) -> (ClientView, PaneOutcomeView) {
    let quiet = ClientView { pane_autoscroll_repeat: None, ..v };
    match screen {
        Some(s) => if !v.subscribed_panes.contains_key(pane) {
            (quiet, PaneOutcomeView::Ignored)
        } else {
            match routed(s, MouseGesture::Button, v.copying()) {
                MouseRoute::App { sgr, motion } => (
                    quiet,
                    PaneOutcomeView::Forward(
                        forwarded(
                            sgr,
                            motion,
                            d.phase_of(),
                            crate::client::after(d.end_x),
                            crate::client::after(d.end_y),
                        ),
                    ),
                ),
                _ => if s.cols == 0 || s.rows == 0 {
                    (quiet, PaneOutcomeView::Ignored)
                } else {
                    let step = v.pane_step(pane, s, d);
                    (
                        v.pane_dragged(pane, step, d, auto_yank),
                        PaneOutcomeView::Repaint(yanked(s, step, d.is_final, auto_yank)),
                    )
                },
            }
        },
        None => (quiet, PaneOutcomeView::Ignored),
    }
}

fn drag_pane(
    c: &mut ClientState,
    screens: &HashMap<PaneId, &Screen>,
    pane: PaneId,
    d: Drag,
    auto_yank: bool,
) -> (r: Reply)
    ensures
        ({
            let (after, outcome) = pane_drag(old(c)@, alive(screens@, pane), pane, d, auto_yank);
            final(c)@ == after && r@ == pane_reply(old(c)@, pane, outcome)
        }),
{
    let quiet = quiet_plan(c);
    let screen: Option<&Screen> = match screens.get(&pane) {
        Some(s) => Some(*s),
        None => None,
    };
    let out = c.pane_mouse_drag(pane, screen, d, auto_yank);
    reply_for(quiet, pane, out)
}

/// What a wheel notch over a watched pane does.
pub open spec fn pane_wheel(
    v: ClientView,
    screen: Option<Screen>,
    pane: PaneId,
    up: bool,
    lines: u16,
    x: u16,
    y: u16,
) -> (ClientView, PaneOutcomeView) {
    match screen {
        Some(s) => if !v.subscribed_panes.contains_key(pane) {
            (v, PaneOutcomeView::Ignored)
        } else {
            match routed(s, MouseGesture::Wheel, v.copying()) {
                MouseRoute::App { sgr, .. } => (
                    v,
                    PaneOutcomeView::Forward(
                        Some(
                            wheel_bytes(sgr, up, crate::client::after(x), crate::client::after(y)),
                        ),
                    ),
                ),
                MouseRoute::AltArrows { app_cursor } => (
                    v,
                    PaneOutcomeView::Forward(
                        Some(
                            crate::mouse::arrows(
                                app_cursor,
                                up,
                                if lines == 0 {
                                    1
                                } else {
                                    lines as nat
                                },
                            ),
                        ),
                    ),
                ),
                MouseRoute::Remux { .. } => (
                    v.pane_scrolled(pane, s, up, lines),
                    PaneOutcomeView::Repaint(None),
                ),
            }
        },
        None => (v, PaneOutcomeView::Ignored),
    }
}

fn wheel_pane(
    c: &mut ClientState,
    screens: &HashMap<PaneId, &Screen>,
    pane: PaneId,
    up: bool,
    lines: u16,
    x: u16,
    y: u16,
) -> (r: Reply)
    ensures
        ({
            let (after, outcome) = pane_wheel(old(c)@, alive(screens@, pane), pane, up, lines, x, y);
            final(c)@ == after && r@ == pane_reply(old(c)@, pane, outcome)
        }),
{
    let quiet = quiet_plan(c);
    let screen: Option<&Screen> = match screens.get(&pane) {
        Some(s) => Some(*s),
        None => None,
    };
    let out = c.scroll_pane(pane, screen, up, lines, x, y);
    reply_for(quiet, pane, out)
}

/// A client that watches a pane. One that is gone is reported as such, and nothing is
/// recorded.
pub open spec fn watches(
    v: ClientView,
    screens: Map<PaneId, &Screen>,
    pane: PaneId,
    demand: Option<(u16, u16)>,
) -> (ClientView, ReplyView) {
    if !screens.contains_key(pane) {
        (v, ReplyView { exited: Some(pane), ..only(idle(session_of(v))) })
    } else {
        (
            v.watching(pane, demand),
            ReplyView {
                stream: Some(pane),
                measure: Measure::Pane(pane),
                ..only(idle(session_of(v)))
            },
        )
    }
}

// ---------------------------------------------------------------------------
// The whole
// ---------------------------------------------------------------------------

/// A message that only concerns the client that sends it.
pub open spec fn told(
    m: ClientMessage,
    st: StateView,
    v: ClientView,
    surface: Surface,
    auto_yank: bool,
) -> (ClientView, ReplyView) {
    let quiet = only(idle(session_of(v)));
    let screens = surface.screens@;
    match m {
        ClientMessage::Detach => (
            ClientView { session_name: None, ..v },
            ReplyView { tree_changed: true, measure: Measure::Watched, ..quiet },
        ),
        ClientMessage::Input { data } => typed(st, v, screens, data@),
        ClientMessage::Resize { cols, rows } => (
            ClientView { cols, rows, ..v },
            match v.session_name {
                Some(s) => only(PlanView { settled: false, ..renewed(s) }),
                None => quiet,
            },
        ),
        ClientMessage::ListSessions => (
            v,
            only(PlanView { list: true, ..idle(session_of(v)) }),
        ),
        ClientMessage::ListSessionTree => (v, ReplyView { send_tree: true, ..quiet }),
        ClientMessage::SubscribeSessionTree => (
            ClientView { session_tree_subscribed: true, ..v },
            ReplyView { send_tree: true, ..quiet },
        ),
        ClientMessage::UnsubscribeSessionTree => (
            ClientView { session_tree_subscribed: false, ..v },
            quiet,
        ),
        ClientMessage::ResurrectSession { name } => (
            v,
            ReplyView { resurrect: Some(name@), ..only(done(session_of(v))) },
        ),
        ClientMessage::RequestScrollback => (
            v,
            ReplyView { history: input_of(st, v), ..quiet },
        ),
        ClientMessage::SearchInfo { current, total } => (
            ClientView {
                search_info: if total == 0 {
                    None
                } else {
                    Some((current, total))
                },
                ..v
            },
            quiet,
        ),
        ClientMessage::ModeChanged { mode } => (
            ClientView {
                mode: mode@,
                search_info: if mode@ == crate::client::SEARCH_MODE@ {
                    v.search_info
                } else {
                    None
                },
                ..v
            },
            match v.session_name {
                Some(s) => only(PlanView { settled: false, ..redrawn(s) }),
                None => quiet,
            },
        ),
        ClientMessage::MouseClick { x, y, pane: Some(pane), release } => pane_clicked(
            v,
            alive(screens, pane),
            pane,
            x,
            y,
            release,
        ),
        ClientMessage::MouseDrag { drag, pane: Some(pane) } => {
            let (after, outcome) = pane_drag(v, alive(screens, pane), pane, drag, auto_yank);
            (after, pane_reply(v, pane, outcome))
        },
        ClientMessage::MouseDrag { drag, pane: None } => session_dragged(
            st,
            v,
            surface,
            auto_yank,
            drag,
        ),
        ClientMessage::ScrollDelta { delta } => scrolled(st, v, screens, delta as int),
        ClientMessage::MouseScroll { x, y, up } => wheeled(st, v, surface, x, y, up),
        ClientMessage::ScrollReset => (v.live(), only(own_frame(v))),
        ClientMessage::RequestScrollbackInfo => (
            v,
            ReplyView {
                lines: match focus_of(st, v) {
                    Some(p) => match alive(screens, p) {
                        Some(s) => Some(s.total() as usize),
                        None => Some(0),
                    },
                    None => None,
                },
                ..quiet
            },
        ),
        ClientMessage::SubscribePane { pane_id, cols, rows, size_demand } => watches(
            v,
            screens,
            pane_id,
            if size_demand {
                Some((cols, rows))
            } else {
                None
            },
        ),
        ClientMessage::UnsubscribePane { pane_id } => (
            v.without_pane(pane_id),
            ReplyView { measure: Measure::Pane(pane_id), ..quiet },
        ),
        ClientMessage::InputToPane { pane_id, data } => (
            v,
            if screens.contains_key(pane_id) {
                only(PlanView { keys: Some((pane_id, data@)), ..idle(session_of(v)) })
            } else {
                ReplyView { exited: Some(pane_id), ..quiet }
            },
        ),
        ClientMessage::ScrollPane { pane_id, up, lines, x, y } => {
            let (after, outcome) = pane_wheel(v, alive(screens, pane_id), pane_id, up, lines, x, y);
            (after, pane_reply(v, pane_id, outcome))
        },
        _ => (v, quiet),
    }
}

/// The change to the shared views that a message asks for. `area` is what fits all clients.
pub open spec fn view_asked(m: ClientMessage, area: Rect) -> Option<ViewChangeView> {
    match m {
        ClientMessage::ViewCreate { name } => Some(ViewChangeView::Create { name: name@ }),
        ClientMessage::ViewDelete { id } => Some(ViewChangeView::Delete { id }),
        ClientMessage::ViewRename { id, name } => Some(
            ViewChangeView::Rename { id, name: name@ },
        ),
        ClientMessage::ViewAddCells { id, cells } => Some(
            ViewChangeView::AddCells { id, cells: new_cells(cells@) },
        ),
        ClientMessage::ViewRemoveCell { id, cell_id } => Some(
            ViewChangeView::RemoveCell { id, cell_id },
        ),
        ClientMessage::ViewSetFocus { id, cell_id } => Some(
            ViewChangeView::SetFocus { id, cell_id },
        ),
        ClientMessage::ViewCycleLayout { id } => Some(ViewChangeView::CycleLayout { id }),
        ClientMessage::ViewToggleZoom { id } => Some(ViewChangeView::ToggleZoom { id }),
        ClientMessage::ViewSetMaster { id } => Some(ViewChangeView::SetMaster { id }),
        ClientMessage::ViewResizeCell { id, cell_id, dir, amount } => Some(
            ViewChangeView::ResizeCell { id, cell_id, dir, amount },
        ),
        ClientMessage::ViewMoveCell { id, cell_id, dir } => Some(
            ViewChangeView::MoveCell { id, cell_id, dir, area },
        ),
        _ => None,
    }
}

/// The message asks for a change to the shared views.
pub open spec fn is_about_views(m: ClientMessage) -> bool {
    view_asked(m, Rect { x: 0, y: 0, width: 0, height: 0 }) is Some
}

/// The change that a message asks for, or the message.
fn view_change(m: ClientMessage, area: Rect) -> (r: Result<ViewChange, ClientMessage>)
    ensures
        match r {
            Ok(change) => view_asked(m, area) == Some(change@),
            Err(same) => view_asked(m, area) is None && same == m,
        },
{
    match m {
        ClientMessage::ViewCreate { name } => Ok(ViewChange::Create { name }),
        ClientMessage::ViewDelete { id } => Ok(ViewChange::Delete { id }),
        ClientMessage::ViewRename { id, name } => Ok(ViewChange::Rename { id, name }),
        ClientMessage::ViewAddCells { id, cells } => Ok(ViewChange::AddCells { id, cells }),
        ClientMessage::ViewRemoveCell { id, cell_id } => Ok(
            ViewChange::RemoveCell { id, cell_id },
        ),
        ClientMessage::ViewSetFocus { id, cell_id } => Ok(ViewChange::SetFocus { id, cell_id }),
        ClientMessage::ViewCycleLayout { id } => Ok(ViewChange::CycleLayout { id }),
        ClientMessage::ViewToggleZoom { id } => Ok(ViewChange::ToggleZoom { id }),
        ClientMessage::ViewSetMaster { id } => Ok(ViewChange::SetMaster { id }),
        ClientMessage::ViewResizeCell { id, cell_id, dir, amount } => Ok(
            ViewChange::ResizeCell { id, cell_id, dir, amount },
        ),
        ClientMessage::ViewMoveCell { id, cell_id, dir } => Ok(
            ViewChange::MoveCell { id, cell_id, dir, area },
        ),
        other => Err(other),
    }
}

/// The message only concerns the client that sends it.
pub open spec fn is_personal(m: ClientMessage) -> bool {
    !is_about_views(m) && match m {
        ClientMessage::Attach { .. } => false,
        ClientMessage::Command(_) => false,
        ClientMessage::CreateSession { .. } => false,
        ClientMessage::KillSession { .. } => false,
        ClientMessage::MouseClick { pane: None, .. } => false,
        _ => true,
    }
}

/// A session deleted; its clients are detached and told.
pub open spec fn killed(st: StateView, name: Seq<char>) -> (StateView, PlanView) {
    if st.sessions.contains_key(name) {
        (
            st.without_session(name),
            PlanView {
                reap: st.sessions[name].everything(),
                gone: GoneView::Dismiss(seq![name]),
                ..done(name)
            },
        )
    } else {
        (st, PlanView { settled: true, ..fails(name, StateError::NoSession) })
    }
}

/// What a message of the client at `me` leads to. `surface` is what is on the client's
/// screen.
pub open spec fn answered(
    m: ClientMessage,
    st: StateView,
    clients: Seq<(u64, ClientView)>,
    me: int,
    surface: Surface,
    auto_yank: bool,
    d: SessionDefaults,
) -> Turn {
    let v = clients[me].1;
    match m {
        ClientMessage::Attach { session_name } => attached_to(st, clients, me, session_name@),
        ClientMessage::Command(c) => {
            let step = commanded(c, st, clients, me, d);
            Turn { st: step.st, clients: step.clients, reply: only(step.plan) }
        },
        ClientMessage::CreateSession { name, folder } => {
            let (after, plan) = session_made(
                st,
                name@,
                opt_text(folder),
                v.cols,
                v.rows,
                d,
                session_of(v),
            );
            Turn { st: after, clients, reply: only(PlanView { settled: true, ..plan }) }
        },
        ClientMessage::KillSession { name } => {
            let (after, plan) = killed(st, name@);
            Turn { st: after, clients, reply: only(plan) }
        },
        ClientMessage::MouseClick { x, y, pane: None, release } => {
            let (after, w, reply) = session_clicked(st, v, surface, x, y, release);
            Turn { st: after, clients: with_client(clients, me, w), reply }
        },
        _ => match view_asked(m, reference_area(clients)) {
            Some(change) => Turn {
                st,
                clients,
                reply: ReplyView { views: Some(change), ..only(idle(session_of(v))) },
            },
            None => {
                let (w, reply) = told(m, st, v, surface, auto_yank);
                Turn { st, clients: with_client(clients, me, w), reply }
            },
        },
    }
}

fn demand_of(size_demand: bool, cols: u16, rows: u16) -> (r: Option<(u16, u16)>)
    ensures
        r == (if size_demand {
            Some((cols, rows))
        } else {
            None
        }),
{
    if size_demand {
        Some((cols, rows))
    } else {
        None
    }
}

/// A message that only concerns the client that sends it.
#[verifier::spinoff_prover]
fn tell(
    m: ClientMessage,
    st: &ServerState,
    c: &mut ClientState,
    surface: &Surface,
    auto_yank: bool,
) -> (r: Reply)
    ensures
        (final(c)@, r@) == told(m, st@, old(c)@, *surface, auto_yank),
{
    let quiet = quiet_plan(c);
    match m {
        ClientMessage::Detach => {
            c.detach();
            let mut r = Reply::only(quiet);
            r.tree_changed = true;
            r.measure = Measure::Watched;
            r
        },
        ClientMessage::Input { data } => handle_input(st, c, &surface.screens, data),
        ClientMessage::Resize { cols, rows } => {
            c.resize(cols, rows);
            match &c.session_name {
                Some(s) => {
                    let mut p = Plan::idle(s);
                    p.resize = true;
                    p.invalidate = true;
                    p.draw = Audience::Everyone;
                    Reply::only(p)
                },
                None => Reply::only(quiet),
            }
        },
        ClientMessage::ListSessions => {
            let mut p = quiet;
            p.list = true;
            Reply::only(p)
        },
        ClientMessage::ListSessionTree => {
            let mut r = Reply::only(quiet);
            r.send_tree = true;
            r
        },
        ClientMessage::SubscribeSessionTree => {
            c.subscribe_session_tree(true);
            let mut r = Reply::only(quiet);
            r.send_tree = true;
            r
        },
        ClientMessage::UnsubscribeSessionTree => {
            c.subscribe_session_tree(false);
            Reply::only(quiet)
        },
        ClientMessage::ResurrectSession { name } => {
            let mut p = quiet;
            p.settled = true;
            let mut r = Reply::only(p);
            r.resurrect = Some(name);
            r
        },
        ClientMessage::RequestScrollback => {
            let mut r = Reply::only(quiet);
            r.history = input_target(st, c);
            r
        },
        ClientMessage::SearchInfo { current, total } => {
            c.handle_search_info(current, total);
            Reply::only(quiet)
        },
        ClientMessage::ModeChanged { mode } => {
            c.handle_mode_changed(&mode);
            match &c.session_name {
                Some(s) => {
                    let mut p = Plan::idle(s);
                    p.draw = Audience::Everyone;
                    Reply::only(p)
                },
                None => Reply::only(quiet),
            }
        },
        ClientMessage::MouseClick { x, y, pane, release } => match pane {
            Some(pane) => click_pane(c, &surface.screens, pane, x, y, release),
            None => Reply::only(quiet),
        },
        ClientMessage::MouseDrag { drag, pane } => match pane {
            Some(pane) => drag_pane(c, &surface.screens, pane, drag, auto_yank),
            None => drag_session(st, c, surface, auto_yank, drag),
        },
        ClientMessage::ScrollDelta { delta } => scroll(st, c, &surface.screens, delta),
        ClientMessage::MouseScroll { x, y, up } => wheel(st, c, surface, x, y, up),
        ClientMessage::ScrollReset => {
            let frame = frame_for(c);
            c.scroll_reset();
            Reply::only(frame)
        },
        ClientMessage::RequestScrollbackInfo => {
            let mut r = Reply::only(quiet);
            r.lines = match focused_pane(st, c) {
                Some(p) => match surface.screens.get(&p) {
                    Some(s) => Some(s.total_lines()),
                    None => Some(0),
                },
                None => None,
            };
            r
        },
        ClientMessage::SubscribePane { pane_id, cols, rows, size_demand } => {
            let mut r = Reply::only(quiet);
            if surface.screens.contains_key(&pane_id) {
                c.subscribe_pane(pane_id, demand_of(size_demand, cols, rows));
                r.stream = Some(pane_id);
                r.measure = Measure::Pane(pane_id);
            } else {
                r.exited = Some(pane_id);
            }
            r
        },
        ClientMessage::UnsubscribePane { pane_id } => {
            c.unsubscribe_pane(pane_id);
            let mut r = Reply::only(quiet);
            r.measure = Measure::Pane(pane_id);
            r
        },
        ClientMessage::InputToPane { pane_id, data } => {
            let mut r = Reply::only(quiet);
            if surface.screens.contains_key(&pane_id) {
                r.plan.keys = Some((pane_id, data));
            } else {
                r.exited = Some(pane_id);
            }
            r
        },
        ClientMessage::ScrollPane { pane_id, up, lines, x, y } => wheel_pane(
            c,
            &surface.screens,
            pane_id,
            up,
            lines,
            x,
            y,
        ),
        _ => Reply::only(quiet),
    }
}

fn kill(st: &mut ServerState, name: String) -> (r: Plan)
    requires
        old(st).sound(),
    ensures
        final(st).sound(),
        (final(st)@, r@) == killed(old(st)@, name@),
{
    proof {
        crate::edit_laws::law_the_server_stays_sound(st@, name@, st@.sessions[name@]);
    }
    match st.delete_session(&name) {
        Ok(panes) => {
            let mut p = Plan::idle(&name);
            p.settled = true;
            p.reap = panes;
            let mut names: Vec<String> = Vec::new();
            names.push(name);
            p.gone = Gone::Dismiss(names);
            assert(texts(names@) =~= seq![name@]);
            p
        },
        Err(e) => {
            let mut p = Plan::idle(&name);
            p.settled = true;
            p.failed = Some(e);
            p
        },
    }
}

/// Handle a message of a client. Nothing happens for a client that is not there.
pub fn handle_client_message(
    client_id: u64,
    m: ClientMessage,
    st: &mut ServerState,
    clients: &mut Clients,
    surface: &Surface,
    auto_yank: bool,
    d: &SessionDefaults,
) -> (r: Option<Reply>)
    requires
        old(st).sound(),
        old(st)@.next_pane < u64::MAX,
        d.layout_mode.valid(),
    ensures
        final(st).sound(),
        forall|me: int| #[trigger]
            is_client(old(clients)@, client_id, me) ==> r is Some && (Turn {
                st: final(st)@,
                clients: final(clients)@,
                reply: r->0@,
            }) == answered(m, old(st)@, old(clients)@, me, *surface, auto_yank, *d),
        (forall|k: int| 0 <= k < old(clients)@.len() ==> (#[trigger] old(clients)@[k]).0 != client_id)
            ==> r is None && final(st)@ == old(st)@ && final(clients)@ == old(clients)@,
{
    let me: usize = match clients.find(client_id) {
        Some(i) => i,
        None => {
            return None;
        },
    };
    assert(is_client(clients@, client_id, me as int));
    assert(forall|k: int| #[trigger] is_client(clients@, client_id, k) ==> k == me);
    assert(clients@[me as int].1 == clients.entries@[me as int].1@);
    let ghost before = *clients;
    match m {
        ClientMessage::Attach { session_name } => Some(
            handle_attach(st, clients, me, &session_name),
        ),
        ClientMessage::Command(c) => match handle_command(client_id, c, st, clients, d) {
            Some(plan) => Some(Reply::only(plan)),
            None => None,
        },
        ClientMessage::CreateSession { name, folder } => {
            let cols: u16 = clients.entries[me].1.cols;
            let rows: u16 = clients.entries[me].1.rows;
            let quiet = quiet_plan(&clients.entries[me].1);
            let under: Option<&str> = match &folder {
                Some(f) => Some(f.as_str()),
                None => None,
            };
            proof {
                crate::edit_laws::law_a_new_session_keeps_the_server_sound(
                    st@,
                    name@,
                    opt_text(folder),
                    d.border_style,
                    d.layout_mode,
                    d.popup_size,
                );
            }
            let mut plan = handle_create_session(st, &name, under, cols, rows, d, &quiet.target);
            plan.settled = true;
            Some(Reply::only(plan))
        },
        ClientMessage::KillSession { name } => Some(Reply::only(kill(st, name))),
        ClientMessage::MouseClick { x, y, pane: None, release } => {
            let r = click_session(st, &mut clients.entries[me].1, surface, x, y, release);
            proof {
                lemma_client_changed(before, *clients, me as int);
            }
            Some(r)
        },
        _ => match view_change(m, clients.view_reference_area()) {
            Ok(change) => {
                let mut r = Reply::only(quiet_plan(&clients.entries[me].1));
                r.views = Some(change);
                Some(r)
            },
            Err(m) => {
                let r = tell(m, st, &mut clients.entries[me].1, surface, auto_yank);
                proof {
                    lemma_client_changed(before, *clients, me as int);
                }
                Some(r)
            },
        },
    }
}

// ---------------------------------------------------------------------------
// What holds of every message
// ---------------------------------------------------------------------------

/// A message about the client's own view of things changes nothing for anybody else,
/// and leaves the sessions alone.
pub proof fn law_a_personal_message_concerns_nobody_else(
    m: ClientMessage,
    st: StateView,
    clients: Seq<(u64, ClientView)>,
    me: int,
    surface: Surface,
    auto_yank: bool,
    d: SessionDefaults,
    i: int,
)
    requires
        is_personal(m),
        0 <= me < clients.len(),
        0 <= i < clients.len(),
        i != me,
    ensures
        answered(m, st, clients, me, surface, auto_yank, d).st == st,
        answered(m, st, clients, me, surface, auto_yank, d).clients[i] == clients[i],
{
}

/// A request about the shared views is handed on whole, and changes nothing else: no
/// session, no client, and nothing that is drawn.
pub proof fn law_a_view_request_is_handed_on(
    m: ClientMessage,
    st: StateView,
    clients: Seq<(u64, ClientView)>,
    me: int,
    surface: Surface,
    auto_yank: bool,
    d: SessionDefaults,
)
    requires
        is_about_views(m),
        0 <= me < clients.len(),
    ensures
        answered(m, st, clients, me, surface, auto_yank, d) == (Turn {
            st,
            clients,
            reply: ReplyView {
                views: view_asked(m, reference_area(clients)),
                ..only(idle(session_of(clients[me].1)))
            },
        }),
        view_asked(m, reference_area(clients)) is Some,
{
}

/// Input is never lost without a word: bytes for a pane go to that pane, or the client
/// is told that it is gone.
pub proof fn law_input_is_never_lost(
    st: StateView,
    v: ClientView,
    surface: Surface,
    auto_yank: bool,
    pane: PaneId,
    data: Vec<u8>,
)
    ensures
        ({
            let r = told(
                ClientMessage::InputToPane { pane_id: pane, data },
                st,
                v,
                surface,
                auto_yank,
            ).1;
            if surface.screens@.contains_key(pane) {
                r.plan.keys == Some((pane, data@)) && r.exited is None
            } else {
                r.plan.keys is None && r.exited == Some(pane)
            }
        }),
{
}

/// A pane that is gone cannot be watched: the client is told, and nothing is recorded.
pub proof fn law_nobody_waits_for_a_pane_that_is_gone(
    v: ClientView,
    screens: Map<PaneId, &Screen>,
    pane: PaneId,
    demand: Option<(u16, u16)>,
)
    ensures
        !screens.contains_key(pane) ==> watches(v, screens, pane, demand).0 == v && watches(
            v,
            screens,
            pane,
            demand,
        ).1.exited == Some(pane),
        screens.contains_key(pane) ==> watches(
            v,
            screens,
            pane,
            demand,
        ).0.subscribed_panes.contains_key(pane) && watches(v, screens, pane, demand).1.stream
            == Some(pane),
{
}

/// While the popup is up it gets what is typed, and the focus of the tab does not move.
pub proof fn law_the_popup_gets_the_input(
    st: StateView,
    v: ClientView,
    screens: Map<PaneId, &Screen>,
    data: Seq<u8>,
)
    requires
        v.session_name matches Some(s) && st.sessions.contains_key(s) && st.sessions[s].popup_up()
            && screens.contains_key(st.sessions[s].popup->0),
    ensures
        typed(st, v, screens, data).1.plan.keys == Some(
            (st.sessions[v.session_name->0].popup->0, data),
        ),
{
}

} // verus!
