//! What a command of a client does: the new state, and a plan of what is left to be
//! done outside of it.

use crate::client::ClientView;
use crate::clients::{moved_clients, render_size, watched, Clients};
use crate::config::BorderStyle;
use crate::command_laws::law_a_command_keeps_the_server_sound;
use crate::edit_laws::{law_a_session_stays_sound, law_the_server_stays_sound};
use crate::edits::{cascaded, TabChange};
use crate::layout::{opt_text, texts, Direction, FocusDirection, PaneId, Rect};
use crate::layout_modes::{BspLayout, LayoutMode};
use crate::ratio::{percent, percent_delta};
use crate::session::CloseAction;
use crate::sizing::{content_area, pane_area};
use crate::state::{created, lemma_tabs_counted, opt_str, with_session, ServerState, StateError, StateView};
use crate::tab::{PanePlacement, TabView};
use crate::text::no_text;
use vstd::prelude::*;

verus! {

// ---------------------------------------------------------------------------
// Commands
// ---------------------------------------------------------------------------

/// A command of a client.
#[derive(Debug)]
pub enum RemuxCommand {
    PopupToggle,
    TabNew,
    TabClose,
    TabGoto(usize),
    TabNext,
    TabPrev,
    TabRename(String),
    PaneSplitVertical,
    PaneSplitHorizontal,
    PaneClose,
    PaneFocus(FocusDirection),
    PaneMove(FocusDirection),
    PaneStackAdd,
    PaneStackNext,
    PaneStackPrev,
    /// The focused pane, or the popup, gets larger or smaller by some percent.
    Resize(FocusDirection, u16),
    ToggleStyle,
    SessionDetach,
    SessionList,
    SessionRename(String),
    PaneRename(String),
    SendKey(Vec<u8>),
    PaneNew,
    LayoutNext,
    SetMaster,
    SessionSwitchTab { session: String, tab_index: usize },
    SessionSwitchPane { session: String, tab_index: usize, pane_id: PaneId },
    TabCloseByIndex { session: String, tab_index: usize },
    FolderNew(String),
    FolderDelete(String),
    FolderMoveSession { session: String, folder: Option<String> },
    FolderList,
    SessionNew { name: String, folder: Option<String> },
    TabMove(usize),
    PaneToggleZoom,
    SessionRenameByName { from: String, to: String },
    FolderRename { from: String, to: String },
    TabNewInSession { session: String },
    TabRenameByIndex { session: String, tab_index: usize, name: String },
    PaneNewInTab { session: String, tab_index: usize },
    PaneCloseById { session: String, pane_id: PaneId },
    PaneRenameById { session: String, pane_id: PaneId, name: String },
    TabMoveByIndex { session: String, tab_index: usize, delta: i32 },
    /// One that the server has nothing to do for.
    Other,
}

/// What a new session is like.
#[derive(Clone, Copy, Debug)]
pub struct SessionDefaults {
    pub border_style: BorderStyle,
    pub layout_mode: LayoutMode,
    /// The width and the height of the popup, in percent.
    pub popup_size: (u16, u16),
}

// ---------------------------------------------------------------------------
// Plans
// ---------------------------------------------------------------------------

/// The size that a terminal starts with.
#[derive(Clone, Copy, Debug, PartialEq, Eq)]
pub enum SpawnSize {
    Exact(u16, u16),
    /// The inside of a popup over an area, sized in percent of it.
    Popup { area: Rect, width_pct: u16, height_pct: u16 },
}

/// A terminal to be started.
#[derive(Clone, Copy, Debug, PartialEq, Eq)]
pub struct Spawn {
    pub pane: PaneId,
    pub size: SpawnSize,
    /// The pane whose directory it starts in.
    pub source: Option<PaneId>,
}

/// A question whose answer changes the state further.
#[derive(Clone, Copy, Debug, PartialEq, Eq)]
pub enum Ask {
    /// Which pane gets the focus in a direction?
    Focus { direction: FocusDirection, area: Rect },
    /// How are the panes arranged once the focused one has moved in a direction?
    Move { direction: FocusDirection, area: Rect },
    /// How large is the popup after a change of its width and height, in percent?
    PopupSize { width: i32, height: i32 },
}

/// What becomes of the clients of sessions that are gone.
#[derive(Debug)]
pub enum Gone {
    Nobody,
    /// They go to another session, if there is one.
    Rehome(String),
    /// They are detached.
    Dismiss(Vec<String>),
}

/// Who is sent a new frame.
#[derive(Clone, Copy, Debug, PartialEq, Eq, Structural)]
pub enum Audience {
    Nobody,
    /// Every client of the session.
    Everyone,
    /// The client that gave the command.
    Requester,
}

/// What is left to be done, in this order, with the session `target`.
#[derive(Debug)]
pub struct Plan {
    pub target: String,
    pub ask: Option<Ask>,
    /// The panes that are gone.
    pub reap: Vec<PaneId>,
    pub gone: Gone,
    /// A terminal to be started.
    pub spawn: Option<Spawn>,
    /// Bytes for a terminal.
    pub keys: Option<(PaneId, Vec<u8>)>,
    /// A new session that all clients are told of.
    pub announce: Option<String>,
    /// The client is sent the list of sessions.
    pub list: bool,
    /// The output of the session's terminals is to be forwarded.
    pub forward: bool,
    /// The session's terminals get their sizes.
    pub resize: bool,
    /// The next frame of the session's clients is a full one.
    pub invalidate: bool,
    pub draw: Audience,
    /// The state is saved, and the session tree has changed.
    pub settled: bool,
    /// What went wrong; then nothing else is done, but the state may be saved.
    pub failed: Option<StateError>,
}

/// What becomes of the clients, as text.
pub enum GoneView {
    Nobody,
    Rehome(Seq<char>),
    Dismiss(Seq<Seq<char>>),
}

/// A plan as a mathematical value.
#[verifier::ext_equal]
pub struct PlanView {
    pub target: Seq<char>,
    pub ask: Option<Ask>,
    pub reap: Seq<PaneId>,
    pub gone: GoneView,
    pub spawn: Option<Spawn>,
    pub keys: Option<(PaneId, Seq<u8>)>,
    pub announce: Option<Seq<char>>,
    pub list: bool,
    pub forward: bool,
    pub resize: bool,
    pub invalidate: bool,
    pub draw: Audience,
    pub settled: bool,
    pub failed: Option<StateError>,
}

impl View for Plan {
    type V = PlanView;

    open spec fn view(&self) -> PlanView {
        PlanView {
            target: self.target@,
            ask: self.ask,
            reap: self.reap@,
            gone: match self.gone {
                Gone::Nobody => GoneView::Nobody,
                Gone::Rehome(s) => GoneView::Rehome(s@),
                Gone::Dismiss(v) => GoneView::Dismiss(texts(v@)),
            },
            spawn: self.spawn,
            keys: match self.keys {
                Some((p, b)) => Some((p, b@)),
                None => None,
            },
            announce: opt_text(self.announce),
            list: self.list,
            forward: self.forward,
            resize: self.resize,
            invalidate: self.invalidate,
            draw: self.draw,
            settled: self.settled,
            failed: self.failed,
        }
    }
}

/// Nothing to do, nothing changed.
pub open spec fn idle(target: Seq<char>) -> PlanView {
    PlanView {
        target,
        ask: None,
        reap: Seq::empty(),
        gone: GoneView::Nobody,
        spawn: None,
        keys: None,
        announce: None,
        list: false,
        forward: false,
        resize: false,
        invalidate: false,
        draw: Audience::Nobody,
        settled: false,
        failed: None,
    }
}

/// Something changed, but there is nothing to show.
pub open spec fn done(target: Seq<char>) -> PlanView {
    PlanView { settled: true, ..idle(target) }
}

/// It went wrong.
pub open spec fn fails(target: Seq<char>, e: StateError) -> PlanView {
    PlanView { failed: Some(e), ..idle(target) }
}

/// The session is drawn again.
pub open spec fn redrawn(target: Seq<char>) -> PlanView {
    PlanView { draw: Audience::Everyone, ..done(target) }
}

/// The session is drawn again, its panes in new sizes.
pub open spec fn reshaped(target: Seq<char>) -> PlanView {
    PlanView { resize: true, ..redrawn(target) }
}

/// The session is drawn again from scratch, its panes in new sizes.
pub open spec fn renewed(target: Seq<char>) -> PlanView {
    PlanView { invalidate: true, ..reshaped(target) }
}

/// A session that may not be on any screen is drawn again if it is.
pub open spec fn refreshed(target: Seq<char>, seen: bool) -> PlanView {
    if seen {
        renewed(target)
    } else {
        done(target)
    }
}

impl Plan {
    /// Nothing to do, nothing changed.
    pub fn idle(target: &str) -> (r: Plan)
        ensures
            r@ == idle(target@),
    {
        let r = Plan {
            target: target.to_owned(),
            ask: None,
            reap: Vec::new(),
            gone: Gone::Nobody,
            spawn: None,
            keys: None,
            announce: None,
            list: false,
            forward: false,
            resize: false,
            invalidate: false,
            draw: Audience::Nobody,
            settled: false,
            failed: None,
        };
        assert(r@ =~= idle(target@));
        r
    }

    fn done(target: &str) -> (r: Plan)
        ensures
            r@ == done(target@),
    {
        let mut r = Plan::idle(target);
        r.settled = true;
        r
    }

    fn fails(target: &str, e: StateError) -> (r: Plan)
        ensures
            r@ == fails(target@, e),
    {
        let mut r = Plan::idle(target);
        r.failed = Some(e);
        r
    }

    fn redrawn(target: &str) -> (r: Plan)
        ensures
            r@ == redrawn(target@),
    {
        let mut r = Plan::done(target);
        r.draw = Audience::Everyone;
        r
    }

    fn reshaped(target: &str) -> (r: Plan)
        ensures
            r@ == reshaped(target@),
    {
        let mut r = Plan::redrawn(target);
        r.resize = true;
        r
    }

    fn renewed(target: &str) -> (r: Plan)
        ensures
            r@ == renewed(target@),
    {
        let mut r = Plan::reshaped(target);
        r.invalidate = true;
        r
    }

    fn refreshed(target: &str, seen: bool) -> (r: Plan)
        ensures
            r@ == refreshed(target@, seen),
    {
        if seen {
            Plan::renewed(target)
        } else {
            Plan::done(target)
        }
    }
}

// ---------------------------------------------------------------------------
// What a command may do
// ---------------------------------------------------------------------------

/// The command names what it acts on, so it needs no session of the client's own.
pub open spec fn names_its_target(c: RemuxCommand) -> bool {
    match c {
        RemuxCommand::FolderNew(_) => true,
        RemuxCommand::FolderDelete(_) => true,
        RemuxCommand::FolderMoveSession { .. } => true,
        RemuxCommand::TabCloseByIndex { .. } => true,
        RemuxCommand::SessionRenameByName { .. } => true,
        RemuxCommand::FolderRename { .. } => true,
        RemuxCommand::TabNewInSession { .. } => true,
        RemuxCommand::TabRenameByIndex { .. } => true,
        RemuxCommand::PaneNewInTab { .. } => true,
        RemuxCommand::PaneCloseById { .. } => true,
        RemuxCommand::PaneRenameById { .. } => true,
        RemuxCommand::TabMoveByIndex { .. } => true,
        _ => false,
    }
}

/// The command works on the layout, so it is barred while the popup owns the input.
pub open spec fn works_on_layout(c: RemuxCommand) -> bool {
    match c {
        RemuxCommand::PaneRename(_) => true,
        RemuxCommand::PaneFocus(_) => true,
        RemuxCommand::PaneMove(_) => true,
        RemuxCommand::PaneSplitVertical => true,
        RemuxCommand::PaneSplitHorizontal => true,
        RemuxCommand::PaneNew => true,
        RemuxCommand::PaneStackAdd => true,
        RemuxCommand::PaneStackNext => true,
        RemuxCommand::PaneStackPrev => true,
        RemuxCommand::PaneToggleZoom => true,
        RemuxCommand::LayoutNext => true,
        RemuxCommand::SetMaster => true,
        _ => false,
    }
}

/// Whether the command names what it acts on.
pub fn has_own_target(c: &RemuxCommand) -> (r: bool)
    ensures
        r == names_its_target(*c),
{
    match c {
        RemuxCommand::FolderNew(_) => true,
        RemuxCommand::FolderDelete(_) => true,
        RemuxCommand::FolderMoveSession { .. } => true,
        RemuxCommand::TabCloseByIndex { .. } => true,
        RemuxCommand::SessionRenameByName { .. } => true,
        RemuxCommand::FolderRename { .. } => true,
        RemuxCommand::TabNewInSession { .. } => true,
        RemuxCommand::TabRenameByIndex { .. } => true,
        RemuxCommand::PaneNewInTab { .. } => true,
        RemuxCommand::PaneCloseById { .. } => true,
        RemuxCommand::PaneRenameById { .. } => true,
        RemuxCommand::TabMoveByIndex { .. } => true,
        _ => false,
    }
}

/// Whether the command works on the layout.
pub fn is_barred_by_popup(c: &RemuxCommand) -> (r: bool)
    ensures
        r == works_on_layout(*c),
{
    match c {
        RemuxCommand::PaneRename(_) => true,
        RemuxCommand::PaneFocus(_) => true,
        RemuxCommand::PaneMove(_) => true,
        RemuxCommand::PaneSplitVertical => true,
        RemuxCommand::PaneSplitHorizontal => true,
        RemuxCommand::PaneNew => true,
        RemuxCommand::PaneStackAdd => true,
        RemuxCommand::PaneStackNext => true,
        RemuxCommand::PaneStackPrev => true,
        RemuxCommand::PaneToggleZoom => true,
        RemuxCommand::LayoutNext => true,
        RemuxCommand::SetMaster => true,
        _ => false,
    }
}

/// The number with the same sixteen bits, read with a sign.
pub open spec fn signed16(a: u16) -> int {
    if a < 0x8000 {
        a as int
    } else {
        a - 0x1_0000
    }
}

/// The change of the popup's width and height that a resize stands for.
pub open spec fn popup_change(direction: FocusDirection, amount: u16) -> Ask {
    let a = signed16(amount);
    match direction {
        FocusDirection::Left => Ask::PopupSize { width: (-a) as i32, height: 0 },
        FocusDirection::Right => Ask::PopupSize { width: a as i32, height: 0 },
        FocusDirection::Up => Ask::PopupSize { width: 0, height: (-a) as i32 },
        FocusDirection::Down => Ask::PopupSize { width: 0, height: a as i32 },
    }
}

fn resize_question(direction: FocusDirection, amount: u16) -> (r: Ask)
    ensures
        r == popup_change(direction, amount),
{
    let a: i32 = if amount < 0x8000 {
        amount as i32
    } else {
        amount as i32 - 0x1_0000
    };
    match direction {
        FocusDirection::Left => Ask::PopupSize { width: -a, height: 0 },
        FocusDirection::Right => Ask::PopupSize { width: a, height: 0 },
        FocusDirection::Up => Ask::PopupSize { width: 0, height: -a },
        FocusDirection::Down => Ask::PopupSize { width: 0, height: a },
    }
}

/// The change of the layout that a resize stands for.
pub open spec fn layout_change(direction: FocusDirection, amount: u16) -> TabChange {
    let a = percent(amount) as int;
    match direction {
        FocusDirection::Left => TabChange::Resize(Direction::Vertical, (-a) as i64),
        FocusDirection::Right => TabChange::Resize(Direction::Vertical, a as i64),
        FocusDirection::Up => TabChange::Resize(Direction::Horizontal, (-a) as i64),
        FocusDirection::Down => TabChange::Resize(Direction::Horizontal, a as i64),
    }
}

fn layout_resize(direction: FocusDirection, amount: u16) -> (r: TabChange)
    ensures
        r == layout_change(direction, amount),
{
    match direction {
        FocusDirection::Left => TabChange::Resize(
            Direction::Vertical,
            percent_delta(amount, true),
        ),
        FocusDirection::Right => TabChange::Resize(
            Direction::Vertical,
            percent_delta(amount, false),
        ),
        FocusDirection::Up => TabChange::Resize(
            Direction::Horizontal,
            percent_delta(amount, true),
        ),
        FocusDirection::Down => TabChange::Resize(
            Direction::Horizontal,
            percent_delta(amount, false),
        ),
    }
}

// ---------------------------------------------------------------------------
// Commands on one tab
// ---------------------------------------------------------------------------

/// The tab that a session shows changed, if there is one.
pub open spec fn tab_edited(st: StateView, s: Seq<char>, c: TabChange, plan: PlanView) -> (
    StateView,
    PlanView,
) {
    match st.tab_at(s, None) {
        Some(k) => (st.tab_changed(s, k, c), plan),
        None => (st, idle(s)),
    }
}

fn edit_tab(st: &mut ServerState, session: &str, c: TabChange, resize: bool) -> (r: Plan)
    requires
        old(st).sound(),
    ensures
        final(st).named(),
        (final(st)@, r@) == tab_edited(
            old(st)@,
            session@,
            c,
            if resize {
                reshaped(session@)
            } else {
                redrawn(session@)
            },
        ),
{
    if st.change_tab(session, None, c) {
        if resize {
            Plan::reshaped(session)
        } else {
            Plan::redrawn(session)
        }
    } else {
        Plan::idle(session)
    }
}

/// A new pane in a tab: the id is taken even if there is no such tab.
pub open spec fn pane_placed(
    st: StateView,
    s: Seq<char>,
    i: Option<usize>,
    how: PanePlacement,
) -> StateView {
    let next = StateView { next_pane: (st.next_pane + 1) as u64, ..st };
    match st.tab_at(s, i) {
        Some(k) => next.tab_changed(s, k, TabChange::Place(how, st.next_pane)),
        None => next,
    }
}

/// The terminal of a new pane. It starts in the directory of the pane that had the
/// focus.
pub open spec fn pane_spawned(
    st: StateView,
    s: Seq<char>,
    i: Option<usize>,
    how: PanePlacement,
    cols: u16,
    rows: u16,
) -> Option<Spawn> {
    match st.tab_at(s, i) {
        Some(k) => Some(
            Spawn {
                pane: st.next_pane,
                size: seed_size(how, cols, rows),
                source: Some(st.sessions[s].tabs[k].focused),
            },
        ),
        None => None,
    }
}

/// The size that the terminal of a new pane starts with.
pub open spec fn seed_size(how: PanePlacement, cols: u16, rows: u16) -> SpawnSize {
    match how {
        PanePlacement::SplitVertical => SpawnSize::Exact(cols / 2, rows),
        PanePlacement::SplitHorizontal => SpawnSize::Exact(cols, rows / 2),
        _ => SpawnSize::Exact(cols, rows),
    }
}

/// Make a pane in a tab of a session: the given one, or the one that is shown.
pub fn create_pane_in_tab(
    st: &mut ServerState,
    session: &str,
    tab_index: Option<usize>,
    placement: PanePlacement,
    cols: u16,
    rows: u16,
) -> (r: Option<Spawn>)
    requires
        old(st).sound(),
        old(st)@.next_pane < u64::MAX,
    ensures
        final(st).named(),
        final(st)@ == pane_placed(old(st)@, session@, tab_index, placement),
        r == pane_spawned(old(st)@, session@, tab_index, placement, cols, rows),
{
    let pane: PaneId = st.next_pane_id();
    let k: usize = match st.find_tab(session, tab_index) {
        Some(k) => k,
        None => {
            return None;
        },
    };
    let source: Option<PaneId> = match st.sessions.get(session) {
        Some(s) => {
            assert(s@.tabs[k as int] == s.tabs@[k as int]@);
            Some(s.tabs[k].focused_pane)
        },
        None => None,
    };
    st.change_tab(session, tab_index, TabChange::Place(placement, pane));
    let (c, r) = placement.spawn_size(cols, rows);
    Some(Spawn { pane, size: SpawnSize::Exact(c, r), source })
}

/// A new pane in the tab that a session shows.
pub open spec fn pane_made(
    st: StateView,
    s: Seq<char>,
    how: PanePlacement,
    cols: u16,
    rows: u16,
) -> (StateView, PlanView) {
    let spawn = pane_spawned(st, s, None, how, cols, rows);
    (
        pane_placed(st, s, None, how),
        PlanView { spawn, forward: spawn is Some, ..reshaped(s) },
    )
}

fn make_pane(st: &mut ServerState, session: &str, how: PanePlacement, cols: u16, rows: u16) -> (r:
    Plan)
    requires
        old(st).sound(),
        old(st)@.next_pane < u64::MAX,
    ensures
        final(st).named(),
        (final(st)@, r@) == pane_made(old(st)@, session@, how, cols, rows),
{
    let spawn = create_pane_in_tab(st, session, None, how, cols, rows);
    let mut plan = Plan::reshaped(session);
    plan.forward = spawn.is_some();
    plan.spawn = spawn;
    plan
}

/// A new pane in a tab of any session.
pub open spec fn pane_made_in(
    st: StateView,
    s: Seq<char>,
    i: usize,
    cols: u16,
    rows: u16,
    seen: bool,
) -> (StateView, PlanView) {
    let spawn = pane_spawned(st, s, Some(i), PanePlacement::Auto, cols, rows);
    (
        pane_placed(st, s, Some(i), PanePlacement::Auto),
        if spawn is Some {
            PlanView { spawn, forward: true, ..refreshed(s, seen) }
        } else {
            idle(s)
        },
    )
}

fn make_pane_in(
    st: &mut ServerState,
    session: &str,
    i: usize,
    cols: u16,
    rows: u16,
    seen: bool,
) -> (r: Plan)
    requires
        old(st).sound(),
        old(st)@.next_pane < u64::MAX,
    ensures
        final(st).named(),
        (final(st)@, r@) == pane_made_in(old(st)@, session@, i, cols, rows, seen),
{
    let spawn = create_pane_in_tab(st, session, Some(i), PanePlacement::Auto, cols, rows);
    if spawn.is_some() {
        let mut plan = Plan::refreshed(session, seen);
        plan.forward = true;
        plan.spawn = spawn;
        plan
    } else {
        Plan::idle(session)
    }
}

/// The zoom of the tab that a session shows set or released.
pub open spec fn zoomed(st: StateView, s: Seq<char>) -> (StateView, PlanView) {
    match st.tab_at(s, None) {
        Some(k) => if st.sessions[s].tabs[k].zoom_changes() {
            (st.tab_changed(s, k, TabChange::ToggleZoom), reshaped(s))
        } else {
            (st, idle(s))
        },
        None => (st, idle(s)),
    }
}

fn zoom(st: &mut ServerState, session: &str) -> (r: Plan)
    requires
        old(st).named(),
    ensures
        final(st).named(),
        (final(st)@, r@) == zoomed(old(st)@, session@),
{
    let changed: bool = match st.find_tab(session, None) {
        Some(k) => match st.sessions.get_mut(session) {
            Some(s) => {
                let ghost was = s@;
                assert(s@.tabs[k as int] == s.tabs@[k as int]@);
                let r = s.tabs[k].toggle_zoom();
                assert(s@ =~= was.with_tab(k as int, was.tabs[k as int].zoom_toggled()));
                r
            },
            None => false,
        },
        None => false,
    };
    proof {
        if !changed {
            assert(st@ =~= old(st)@) by {
                if old(st)@.tab_at(session@, None) is Some {
                    let s = old(st)@.sessions[session@];
                    let k = old(st)@.tab_at(session@, None)->0;
                    assert(s.with_tab(k, s.tabs[k].zoom_toggled()) =~= s);
                    assert(st@.sessions =~= old(st)@.sessions);
                }
            }
        } else {
            assert(st@ =~= zoomed(old(st)@, session@).0);
        }
    }
    if changed {
        Plan::reshaped(session)
    } else {
        Plan::idle(session)
    }
}

/// The focused pane named by the user; the typing of a name ends.
pub open spec fn pane_renamed(st: StateView, s: Seq<char>, name: String) -> (StateView, PlanView) {
    if !st.sessions.contains_key(s) {
        (st, idle(s))
    } else {
        let quiet = st.with(
            s,
            crate::session::SessionView { renaming: None, ..st.sessions[s] },
        );
        match quiet.tab_at(s, None) {
            Some(k) => (
                quiet.tab_changed(
                    s,
                    k,
                    TabChange::NamePane(quiet.sessions[s].tabs[k].focused, name),
                ),
                redrawn(s),
            ),
            None => (quiet, idle(s)),
        }
    }
}

fn rename_focused(st: &mut ServerState, session: &str, name: String) -> (r: Plan)
    requires
        old(st).sound(),
    ensures
        final(st).named(),
        (final(st)@, r@) == pane_renamed(old(st)@, session@, name),
{
    match st.sessions.get_mut(session) {
        Some(s) => {
            s.rename_state = None;
        },
        None => {
            return Plan::idle(session);
        },
    }
    let ghost quiet = old(st)@.with(
        session@,
        crate::session::SessionView { renaming: None, ..old(st)@.sessions[session@] },
    );
    assert(st@.sessions =~= quiet.sessions);
    assert(st@ =~= quiet);
    assert(quiet.sound()) by {
        assert(old(st)@.sessions[session@].sound());
    }
    match st.focused(session) {
        Some(p) => {
            st.change_tab(session, None, TabChange::NamePane(p, name));
            Plan::redrawn(session)
        },
        None => Plan::idle(session),
    }
}

// ---------------------------------------------------------------------------
// Commands on tabs
// ---------------------------------------------------------------------------

/// The popup of a session shown or hidden.
pub open spec fn popup_switched(st: StateView, s: Seq<char>, cols: u16, rows: u16) -> (
    StateView,
    PlanView,
) {
    if !st.sessions.contains_key(s) {
        (st, idle(s))
    } else {
        let x = st.sessions[s];
        (
            st.popup_toggled(s),
            if x.popup is None {
                PlanView {
                    spawn: Some(
                        Spawn {
                            pane: st.next_pane,
                            size: SpawnSize::Popup {
                                area: pane_area(cols, rows),
                                width_pct: x.popup_size.0,
                                height_pct: x.popup_size.1,
                            },
                            source: st.focus_of(s),
                        },
                    ),
                    forward: true,
                    ..renewed(s)
                }
            } else {
                renewed(s)
            },
        )
    }
}

fn switch_popup(st: &mut ServerState, session: &str, cols: u16, rows: u16) -> (r: Plan)
    requires
        old(st).named(),
        old(st)@.next_pane < u64::MAX,
    ensures
        final(st).named(),
        (final(st)@, r@) == popup_switched(old(st)@, session@, cols, rows),
{
    let (width_pct, height_pct): (u16, u16) = match st.sessions.get(session) {
        Some(s) => s.popup_size,
        None => {
            return Plan::idle(session);
        },
    };
    let source = st.focused(session);
    let mut plan = Plan::renewed(session);
    match st.toggle_popup(session) {
        Some(pane) => {
            plan.forward = true;
            plan.spawn = Some(
                Spawn {
                    pane,
                    size: SpawnSize::Popup {
                        area: content_area(cols, rows),
                        width_pct,
                        height_pct,
                    },
                    source,
                },
            );
        },
        None => {},
    }
    plan
}

/// A new tab of a session. Its terminal starts in the directory of the focused pane.
pub open spec fn tab_made(
    st: StateView,
    s: Seq<char>,
    cols: u16,
    rows: u16,
    plan: PlanView,
) -> (StateView, PlanView) {
    (
        st.tab_added(s, LayoutMode::Bsp(BspLayout)),
        PlanView {
            spawn: Some(
                Spawn {
                    pane: st.next_pane,
                    size: SpawnSize::Exact(cols, rows),
                    source: st.focus_of(s),
                },
            ),
            forward: true,
            ..plan
        },
    )
}

fn make_tab(st: &mut ServerState, session: &str, cols: u16, rows: u16, plan: Plan) -> (r: Plan)
    requires
        old(st).named(),
        old(st)@.next_pane < u64::MAX,
        plan@.target == session@,
    ensures
        final(st).named(),
        if old(st)@.sessions.contains_key(session@) {
            (final(st)@, r@) == tab_made(old(st)@, session@, cols, rows, plan@)
        } else {
            final(st)@ == old(st)@ && r@ == fails(session@, StateError::NoSession)
        },
{
    let source = st.focused(session);
    match st.create_tab(session, LayoutMode::Bsp(BspLayout)) {
        Ok(pane) => {
            let mut plan = plan;
            plan.forward = true;
            plan.spawn = Some(Spawn { pane, size: SpawnSize::Exact(cols, rows), source });
            plan
        },
        Err(e) => Plan::fails(session, e),
    }
}

/// A tab of a session closed. The session goes with its last tab.
pub open spec fn tab_closed(st: StateView, s: Seq<char>, k: int, plan: PlanView) -> (
    StateView,
    PlanView,
) {
    let x = st.sessions[s];
    if x.tabs.len() == 1 {
        (
            st.without_session(s),
            PlanView { reap: x.everything(), gone: GoneView::Rehome(s), ..done(s) },
        )
    } else {
        (st.with(s, x.without_tab(k)), PlanView { reap: x.tabs[k].order, ..plan })
    }
}

/// Close a tab; the error if there is none.
fn close_tab(st: &mut ServerState, session: &str, i: usize, plan: Plan) -> (r: Result<
    Plan,
    StateError,
>)
    requires
        old(st).sound(),
    ensures
        final(st).named(),
        match old(st)@.tab_at(session@, Some(i)) {
            Some(k) => r matches Ok(p) && (final(st)@, p@) == tab_closed(
                old(st)@,
                session@,
                k,
                plan@,
            ),
            None => r matches Err(e) && e == old(st)@.tab_error(session@, i) && final(st)@ == old(
                st,
            )@,
        },
{
    match st.close_tab(session, i) {
        Ok((panes, removed)) => if removed {
            let mut p = Plan::done(session);
            p.reap = panes;
            p.gone = Gone::Rehome(session.to_owned());
            Ok(p)
        } else {
            let mut p = plan;
            p.reap = panes;
            Ok(p)
        },
        Err(e) => Err(e),
    }
}

/// Another tab of a session shown.
pub open spec fn tab_shown(st: StateView, s: Seq<char>, i: usize) -> (StateView, PlanView) {
    match st.tab_at(s, Some(i)) {
        Some(k) => (st.with(s, st.sessions[s].showing(k)), renewed(s)),
        None => (st, fails(s, st.tab_error(s, i))),
    }
}

fn show_tab(st: &mut ServerState, session: &str, i: usize) -> (r: Plan)
    requires
        old(st).named(),
    ensures
        final(st).named(),
        (final(st)@, r@) == tab_shown(old(st)@, session@, i),
{
    match st.goto_tab(session, i) {
        Ok(_) => Plan::renewed(session),
        Err(e) => Plan::fails(session, e),
    }
}

/// The index of the tab after the one that is shown, or before it.
pub open spec fn step_index(st: StateView, s: Seq<char>, forward: bool) -> usize {
    let x = st.sessions[s];
    (if forward {
        (x.active + 1) % x.tabs.len() as int
    } else if x.active == 0 {
        x.tabs.len() - 1
    } else {
        x.active - 1
    }) as usize
}

fn step_tab(st: &mut ServerState, session: &str, forward: bool) -> (r: Plan)
    requires
        old(st).sound(),
    ensures
        final(st).named(),
        (final(st)@, r@) == (if old(st)@.sessions.contains_key(session@) {
            tab_shown(old(st)@, session@, step_index(old(st)@, session@, forward))
        } else {
            (old(st)@, idle(session@))
        }),
{
    assert(st@.sessions.contains_key(session@) ==> st@.sessions[session@].sound());
    let i: usize = match st.sessions.get(session) {
        Some(s) => if forward {
            s.next_index()
        } else {
            s.prev_index()
        },
        None => {
            return Plan::idle(session);
        },
    };
    show_tab(st, session, i)
}

// ---------------------------------------------------------------------------
// Closing panes
// ---------------------------------------------------------------------------

/// A pane of the tab that a session shows closed, or its popup.
pub open spec fn pane_closed(st: StateView, s: Seq<char>, pane: PaneId) -> (StateView, PlanView) {
    let (after, action, gone) = st.pane_closed(s, pane);
    (
        after,
        match action {
            CloseAction::NoBroadcast => done(s),
            CloseAction::Broadcast => PlanView { reap: gone, ..reshaped(s) },
            CloseAction::SessionRemoved => PlanView {
                reap: gone,
                gone: GoneView::Rehome(s),
                ..done(s)
            },
        },
    )
}

/// Close a pane of the tab that a session shows, or its popup.
pub fn close_pane(st: &mut ServerState, session: &str, pane: PaneId) -> (r: Plan)
    requires
        old(st).sound(),
    ensures
        final(st).named(),
        (final(st)@, r@) == pane_closed(old(st)@, session@, pane),
{
    let (action, gone) = st.close_pane(session, pane);
    match action {
        CloseAction::NoBroadcast => Plan::done(session),
        CloseAction::Broadcast => {
            let mut p = Plan::reshaped(session);
            p.reap = gone;
            p
        },
        CloseAction::SessionRemoved => {
            let mut p = Plan::done(session);
            p.reap = gone;
            p.gone = Gone::Rehome(session.to_owned());
            p
        },
    }
}

/// A pane of any tab closed.
pub open spec fn any_pane_closed(st: StateView, s: Seq<char>, pane: PaneId, seen: bool) -> (
    StateView,
    PlanView,
) {
    if st.sessions.contains_key(s) && crate::sizing::shows(st.sessions[s], pane) {
        pane_closed(st, s, pane)
    } else {
        match st.closed_behind(s, pane) {
            Some(after) => (after, PlanView { reap: seq![pane], ..refreshed(s, seen) }),
            None => (st, idle(s)),
        }
    }
}

fn close_any_pane(st: &mut ServerState, session: &str, pane: PaneId, seen: bool) -> (r: Plan)
    requires
        old(st).sound(),
    ensures
        final(st).named(),
        (final(st)@, r@) == any_pane_closed(old(st)@, session@, pane, seen),
{
    let in_front: bool = match st.sessions.get(session) {
        Some(s) => crate::sizing::is_showing(s, pane),
        None => false,
    };
    if in_front {
        close_pane(st, session, pane)
    } else if st.close_background_pane(session, pane) {
        let mut p = Plan::refreshed(session, seen);
        p.reap.push(pane);
        assert(p.reap@ =~= seq![pane]);
        p
    } else {
        Plan::idle(session)
    }
}

/// A pane of any tab named by the user.
pub open spec fn any_pane_renamed(
    st: StateView,
    s: Seq<char>,
    pane: PaneId,
    name: String,
    seen: bool,
) -> (StateView, PlanView) {
    if !st.sessions.contains_key(s) {
        (st, idle(s))
    } else {
        match crate::session::tab_with(st.sessions[s].tabs, pane, 0) {
            Some(k) => (
                st.tab_changed(s, k, TabChange::NamePane(pane, name)),
                refreshed(s, seen),
            ),
            None => (st, idle(s)),
        }
    }
}

fn rename_any_pane(
    st: &mut ServerState,
    session: &str,
    pane: PaneId,
    name: String,
    seen: bool,
) -> (r: Plan)
    requires
        old(st).sound(),
    ensures
        final(st).named(),
        (final(st)@, r@) == any_pane_renamed(old(st)@, session@, pane, name, seen),
{
    let k: usize = match st.sessions.get(session) {
        Some(s) => match s.find_tab(pane) {
            Some(k) => k,
            None => {
                return Plan::idle(session);
            },
        },
        None => {
            return Plan::idle(session);
        },
    };
    st.change_tab(session, Some(k), TabChange::NamePane(pane, name));
    Plan::refreshed(session, seen)
}

// ---------------------------------------------------------------------------
// The whole
// ---------------------------------------------------------------------------

/// What a command comes to.
#[verifier::ext_equal]
pub struct Step {
    pub st: StateView,
    pub clients: Seq<(u64, ClientView)>,
    pub plan: PlanView,
}

/// A step that leaves the clients alone.
pub open spec fn of_state(r: (StateView, PlanView), clients: Seq<(u64, ClientView)>) -> Step {
    Step { st: r.0, clients, plan: r.1 }
}

/// A client attached to a session.
pub open spec fn moved_to(clients: Seq<(u64, ClientView)>, me: int, s: Seq<char>) -> Seq<
    (u64, ClientView),
> {
    clients.update(
        me,
        (clients[me].0, ClientView { session_name: Some(s), ..clients[me].1 }),
    )
}

/// A client attached to another session, at one of its tabs.
pub open spec fn switched(
    st: StateView,
    clients: Seq<(u64, ClientView)>,
    me: int,
    s: Seq<char>,
    i: usize,
    pane: Option<PaneId>,
) -> Step {
    let there = moved_to(clients, me, s);
    match st.tab_at(s, Some(i)) {
        Some(k) => {
            let shown = st.with(s, st.sessions[s].showing(k));
            Step {
                st: match pane {
                    Some(p) => shown.tab_changed(s, k, TabChange::Focus(p)),
                    None => shown,
                },
                clients: there,
                plan: PlanView { forward: true, draw: Audience::Requester, ..renewed(s) },
            }
        },
        None => Step { st, clients: there, plan: idle(s) },
    }
}

/// A session under another name, its clients with it.
pub open spec fn session_renamed(
    st: StateView,
    clients: Seq<(u64, ClientView)>,
    from: Seq<char>,
    to: Seq<char>,
) -> Result<Step, StateError> {
    if !st.sessions.contains_key(from) {
        Err(StateError::NoSession)
    } else if st.sessions.contains_key(to) {
        Err(StateError::SessionExists)
    } else {
        Ok(
            Step {
                st: st.session_renamed(from, to),
                clients: moved_clients(clients, from, Some(to)),
                plan: done(to),
            },
        )
    }
}

/// A folder deleted with its sessions.
pub open spec fn folder_deleted(st: StateView, folder: Seq<char>, s: Seq<char>) -> (
    StateView,
    PlanView,
) {
    if !st.folders.contains_key(folder) {
        (st, fails(s, StateError::NoFolder))
    } else {
        let ids = st.folders[folder].session_ids;
        let bare = StateView { folders: st.folders.remove(folder), ..st };
        let (after, gone) = cascaded(bare, ids, ids.len() as int);
        (
            after,
            PlanView {
                reap: panes_gone(gone, gone.len() as int),
                gone: GoneView::Dismiss(Seq::new(gone.len(), |i: int| gone[i].0)),
                ..done(s)
            },
        )
    }
}

/// The panes of the first `n` sessions that are gone.
pub open spec fn panes_gone(gone: Seq<(Seq<char>, Seq<PaneId>)>, n: int) -> Seq<PaneId>
    decreases n,
{
    if n <= 0 {
        Seq::empty()
    } else {
        panes_gone(gone, n - 1) + gone[n - 1].1
    }
}

/// What a command does to the tab that is shown, or to the look of the session.
pub open spec fn edited(
    c: RemuxCommand,
    s: Seq<char>,
    st: StateView,
) -> (StateView, PlanView) {
    match c {
        RemuxCommand::PaneStackNext => tab_edited(st, s, TabChange::Turn(true), redrawn(s)),
        RemuxCommand::PaneStackPrev => tab_edited(st, s, TabChange::Turn(false), redrawn(s)),
        RemuxCommand::Resize(direction, amount) => tab_edited(st, s, layout_change(direction, amount), reshaped(s)),
        RemuxCommand::LayoutNext => tab_edited(st, s, TabChange::NextLayout, reshaped(s)),
        RemuxCommand::SetMaster => tab_edited(st, s, TabChange::SetMaster, reshaped(s)),
        RemuxCommand::PaneToggleZoom => zoomed(st, s),
        RemuxCommand::PaneRename(name) => pane_renamed(st, s, name),
        RemuxCommand::TabRename(name) => if !st.sessions.contains_key(s) {
                (st, idle(s))
            } else {
                match st.tab_at(s, None) {
                    Some(k) => (
                        st.with(
                            s,
                            st.sessions[s].with_tab(
                                k,
                                TabView { name: name@, ..st.sessions[s].tabs[k] },
                            ),
                        ),
                        redrawn(s),
                    ),
                    None => (st, fails(s, StateError::NoTab)),
                }
            },
        RemuxCommand::TabMove(number) => if st.sessions.contains_key(s) {
                (st.with(s, st.sessions[s].tab_moved(number)), redrawn(s))
            } else {
                (st, redrawn(s))
            },
        RemuxCommand::ToggleStyle => if st.sessions.contains_key(s) {
                (st.with(s, st.sessions[s].restyled()), reshaped(s))
            } else {
                (st, idle(s))
            },
        _ => (st, idle(s)),
    }
}

/// What a command that starts a terminal does.
pub open spec fn opened(
    c: RemuxCommand,
    s: Seq<char>,
    cols: u16,
    rows: u16,
    st: StateView,
    d: SessionDefaults,
) -> (StateView, PlanView) {
    match c {
        RemuxCommand::PopupToggle => popup_switched(st, s, cols, rows),
        RemuxCommand::TabNew => if st.sessions.contains_key(s) {
                tab_made(st, s, cols, rows, renewed(s))
            } else {
                (st, fails(s, StateError::NoSession))
            },
        RemuxCommand::PaneSplitVertical => pane_made(st, s, PanePlacement::SplitVertical, cols, rows),
        RemuxCommand::PaneSplitHorizontal => pane_made(st, s, PanePlacement::SplitHorizontal, cols, rows),
        RemuxCommand::PaneStackAdd => pane_made(st, s, PanePlacement::Stack, cols, rows),
        RemuxCommand::PaneNew => pane_made(st, s, PanePlacement::Auto, cols, rows),
        RemuxCommand::SessionNew { name, folder } => session_made(st, name@, opt_text(folder), cols, rows, d, s),
        _ => (st, idle(s)),
    }
}

/// What a command does that shows another tab, closes something, or only asks.
pub open spec fn steered(
    c: RemuxCommand,
    s: Seq<char>,
    cols: u16,
    rows: u16,
    st: StateView,
) -> (StateView, PlanView) {
    match c {
        RemuxCommand::TabClose => if !st.sessions.contains_key(s) {
                (st, idle(s))
            } else {
                match st.tab_at(s, None) {
                    Some(k) => tab_closed(st, s, k, PlanView { invalidate: true, ..redrawn(s) }),
                    None => (st, fails(s, StateError::NoTab)),
                }
            },
        RemuxCommand::TabGoto(i) => tab_shown(st, s, i),
        RemuxCommand::TabNext => if st.sessions.contains_key(s) {
                tab_shown(st, s, step_index(st, s, true))
            } else {
                (st, idle(s))
            },
        RemuxCommand::TabPrev => if st.sessions.contains_key(s) {
                tab_shown(st, s, step_index(st, s, false))
            } else {
                (st, idle(s))
            },
        RemuxCommand::PaneClose => if st.sessions.contains_key(s) && st.sessions[s].target() is Some {
                pane_closed(st, s, st.sessions[s].target()->0)
            } else {
                (st, idle(s))
            },
        RemuxCommand::PaneFocus(direction) => (
                st,
                if st.tab_at(s, None) is Some {
                    PlanView {
                        ask: Some(Ask::Focus { direction, area: pane_area(cols, rows) }),
                        ..redrawn(s)
                    }
                } else {
                    idle(s)
                },
            ),
        RemuxCommand::PaneMove(direction) => (
                st,
                if st.tab_at(s, None) is Some {
                    PlanView {
                        ask: Some(Ask::Move { direction, area: pane_area(cols, rows) }),
                        ..reshaped(s)
                    }
                } else {
                    idle(s)
                },
            ),
        RemuxCommand::SendKey(bytes) => (
                st,
                match st.focus_of(s) {
                    Some(p) => PlanView { keys: Some((p, bytes@)), ..done(s) },
                    None => idle(s),
                },
            ),
        RemuxCommand::SessionList => (st, PlanView { list: true, ..done(s) }),
        RemuxCommand::FolderList => (st, done(s)),
        RemuxCommand::Other => (st, done(s)),
        _ => (st, idle(s)),
    }
}

/// What a command does to the folders.
pub open spec fn organised(
    c: RemuxCommand,
    s: Seq<char>,
    st: StateView,
) -> (StateView, PlanView) {
    match c {
        RemuxCommand::FolderNew(name) => if st.folders.contains_key(name@) {
                (st, fails(s, StateError::FolderExists))
            } else {
                (
                    StateView {
                        folders: st.folders.insert(
                            name@,
                            crate::state::FolderView { name: name@, session_ids: Seq::empty() },
                        ),
                        ..st
                    },
                    done(s),
                )
            },
        RemuxCommand::FolderDelete(name) => folder_deleted(st, name@, s),
        RemuxCommand::FolderMoveSession { session, folder } => if !st.sessions.contains_key(session@) {
                (st, fails(s, StateError::NoSession))
            } else if opt_text(folder) matches Some(f) && !st.folders.contains_key(f) {
                (st, fails(s, StateError::NoFolder))
            } else {
                (st.session_filed(session@, opt_text(folder)), done(s))
            },
        RemuxCommand::FolderRename { from, to } => if st.folders.contains_key(from@) && !st.folders.contains_key(to@) {
                (st.folder_renamed(from@, to@), done(s))
            } else {
                (st, done(s))
            },
        _ => (st, idle(s)),
    }
}

/// What a command does that moves clients between sessions.
pub open spec fn reattached(
    c: RemuxCommand,
    s: Seq<char>,
    st: StateView,
    clients: Seq<(u64, ClientView)>,
    me: int,
) -> Step {
    match c {
        RemuxCommand::SessionDetach => Step {
            st,
            clients: clients.update(
                me,
                (clients[me].0, ClientView { session_name: None, ..clients[me].1 }),
            ),
            plan: done(s),
        },
        RemuxCommand::SessionRename(name) => match session_renamed(st, clients, s, name@) {
            Ok(step) => step,
            Err(e) => Step { st, clients, plan: fails(s, e) },
        },
        RemuxCommand::SessionSwitchTab { session, tab_index } => switched(
            st,
            clients,
            me,
            session@,
            tab_index,
            None,
        ),
        RemuxCommand::SessionSwitchPane { session, tab_index, pane_id } => switched(
            st,
            clients,
            me,
            session@,
            tab_index,
            Some(pane_id),
        ),
        RemuxCommand::SessionRenameByName { from, to } => match session_renamed(
            st,
            clients,
            from@,
            to@,
        ) {
            Ok(step) => step,
            Err(_) => Step { st, clients, plan: idle(from@) },
        },
        _ => Step { st, clients, plan: idle(s) },
    }
}

/// What a command does to a session that it names.
pub open spec fn reached(
    c: RemuxCommand,
    st: StateView,
    clients: Seq<(u64, ClientView)>,
) -> (StateView, PlanView) {
    match c {
        RemuxCommand::TabCloseByIndex { session, tab_index } => match st.tab_at(session@, Some(tab_index)) {
                Some(k) => tab_closed(
                    st,
                    session@,
                    k,
                    PlanView {
                        resize: watched(clients, session@),
                        invalidate: true,
                        ..redrawn(session@)
                    },
                ),
                None => (st, done(session@)),
            },
        RemuxCommand::TabNewInSession { session } => if st.sessions.contains_key(session@) {
                let size = render_size(clients, session@);
                tab_made(
                    st,
                    session@,
                    size.0,
                    size.1,
                    refreshed(session@, watched(clients, session@)),
                )
            } else {
                (st, idle(session@))
            },
        RemuxCommand::TabRenameByIndex { session, tab_index, name } => match st.tab_at(session@, Some(tab_index)) {
                Some(k) => (
                    st.with(
                        session@,
                        st.sessions[session@].with_tab(
                            k,
                            TabView { name: name@, ..st.sessions[session@].tabs[k] },
                        ),
                    ),
                    refreshed(session@, watched(clients, session@)),
                ),
                None => (st, idle(session@)),
            },
        RemuxCommand::PaneNewInTab { session, tab_index } => {
            let size = render_size(clients, session@);
            pane_made_in(
                st,
                session@,
                tab_index,
                size.0,
                size.1,
                watched(clients, session@),
            )
        },
        RemuxCommand::PaneCloseById { session, pane_id } => any_pane_closed(st, session@, pane_id, watched(clients, session@)),
        RemuxCommand::PaneRenameById { session, pane_id, name } => any_pane_renamed(st, session@, pane_id, name, watched(clients, session@)),
        RemuxCommand::TabMoveByIndex { session, tab_index, delta } => match st.tab_at(session@, Some(tab_index)) {
                Some(k) => (
                    st.with(session@, st.sessions[session@].tab_shifted(k, delta as int)),
                    refreshed(session@, watched(clients, session@)),
                ),
                None => (st, idle(session@)),
            },
        _ => (st, idle(Seq::empty())),
    }
}

/// What a command does for the client `me`, whose session is `s` and whose terminal has
/// `cols` columns and `rows` rows.
pub open spec fn performed(
    c: RemuxCommand,
    s: Seq<char>,
    cols: u16,
    rows: u16,
    st: StateView,
    clients: Seq<(u64, ClientView)>,
    me: int,
    d: SessionDefaults,
) -> Step {
    match c {
        RemuxCommand::PaneStackNext => of_state(edited(c, s, st), clients),
        RemuxCommand::PaneStackPrev => of_state(edited(c, s, st), clients),
        RemuxCommand::Resize(..) => of_state(edited(c, s, st), clients),
        RemuxCommand::LayoutNext => of_state(edited(c, s, st), clients),
        RemuxCommand::SetMaster => of_state(edited(c, s, st), clients),
        RemuxCommand::PaneToggleZoom => of_state(edited(c, s, st), clients),
        RemuxCommand::PaneRename(..) => of_state(edited(c, s, st), clients),
        RemuxCommand::TabRename(..) => of_state(edited(c, s, st), clients),
        RemuxCommand::TabMove(..) => of_state(edited(c, s, st), clients),
        RemuxCommand::ToggleStyle => of_state(edited(c, s, st), clients),
        RemuxCommand::PopupToggle => of_state(opened(c, s, cols, rows, st, d), clients),
        RemuxCommand::TabNew => of_state(opened(c, s, cols, rows, st, d), clients),
        RemuxCommand::PaneSplitVertical => of_state(opened(c, s, cols, rows, st, d), clients),
        RemuxCommand::PaneSplitHorizontal => of_state(opened(c, s, cols, rows, st, d), clients),
        RemuxCommand::PaneStackAdd => of_state(opened(c, s, cols, rows, st, d), clients),
        RemuxCommand::PaneNew => of_state(opened(c, s, cols, rows, st, d), clients),
        RemuxCommand::SessionNew { .. } => of_state(opened(c, s, cols, rows, st, d), clients),
        RemuxCommand::TabClose => of_state(steered(c, s, cols, rows, st), clients),
        RemuxCommand::TabGoto(..) => of_state(steered(c, s, cols, rows, st), clients),
        RemuxCommand::TabNext => of_state(steered(c, s, cols, rows, st), clients),
        RemuxCommand::TabPrev => of_state(steered(c, s, cols, rows, st), clients),
        RemuxCommand::PaneClose => of_state(steered(c, s, cols, rows, st), clients),
        RemuxCommand::PaneFocus(..) => of_state(steered(c, s, cols, rows, st), clients),
        RemuxCommand::PaneMove(..) => of_state(steered(c, s, cols, rows, st), clients),
        RemuxCommand::SendKey(..) => of_state(steered(c, s, cols, rows, st), clients),
        RemuxCommand::SessionList => of_state(steered(c, s, cols, rows, st), clients),
        RemuxCommand::FolderList => of_state(steered(c, s, cols, rows, st), clients),
        RemuxCommand::Other => of_state(steered(c, s, cols, rows, st), clients),
        RemuxCommand::FolderNew(..) => of_state(organised(c, s, st), clients),
        RemuxCommand::FolderDelete(..) => of_state(organised(c, s, st), clients),
        RemuxCommand::FolderMoveSession { .. } => of_state(organised(c, s, st), clients),
        RemuxCommand::FolderRename { .. } => of_state(organised(c, s, st), clients),
        RemuxCommand::SessionDetach => reattached(c, s, st, clients, me),
        RemuxCommand::SessionRename(..) => reattached(c, s, st, clients, me),
        RemuxCommand::SessionSwitchTab { .. } => reattached(c, s, st, clients, me),
        RemuxCommand::SessionSwitchPane { .. } => reattached(c, s, st, clients, me),
        RemuxCommand::SessionRenameByName { .. } => reattached(c, s, st, clients, me),
        RemuxCommand::TabCloseByIndex { .. } => of_state(reached(c, st, clients), clients),
        RemuxCommand::TabNewInSession { .. } => of_state(reached(c, st, clients), clients),
        RemuxCommand::TabRenameByIndex { .. } => of_state(reached(c, st, clients), clients),
        RemuxCommand::PaneNewInTab { .. } => of_state(reached(c, st, clients), clients),
        RemuxCommand::PaneCloseById { .. } => of_state(reached(c, st, clients), clients),
        RemuxCommand::PaneRenameById { .. } => of_state(reached(c, st, clients), clients),
        RemuxCommand::TabMoveByIndex { .. } => of_state(reached(c, st, clients), clients),
    }
}

/// A new session of one pane. All clients are told.
pub open spec fn session_made(
    st: StateView,
    name: Seq<char>,
    folder: Option<Seq<char>>,
    cols: u16,
    rows: u16,
    d: SessionDefaults,
    s: Seq<char>,
) -> (StateView, PlanView) {
    match created(st, name, folder) {
        Ok(pane) => (
            with_session(st, name, folder, d.border_style, d.layout_mode, d.popup_size),
            PlanView {
                spawn: Some(
                    Spawn { pane, size: SpawnSize::Exact(cols, rows), source: None },
                ),
                announce: Some(name),
                ..done(s)
            },
        ),
        Err(e) => (st, fails(s, e)),
    }
}

/// Make a session of one pane, for a client whose terminal has `cols` columns and `rows`
/// rows.
pub fn handle_create_session(
    st: &mut ServerState,
    name: &str,
    folder: Option<&str>,
    cols: u16,
    rows: u16,
    d: &SessionDefaults,
    session: &str,
) -> (r: Plan)
    requires
        old(st).named(),
        old(st)@.next_pane < u64::MAX,
        d.layout_mode.valid(),
    ensures
        final(st).named(),
        (final(st)@, r@) == session_made(
            old(st)@,
            name@,
            opt_str(folder),
            cols,
            rows,
            *d,
            session@,
        ),
{
    match st.create_session(name, folder, d.border_style, d.layout_mode, d.popup_size) {
        Ok(pane) => {
            let mut p = Plan::done(session);
            p.spawn = Some(Spawn { pane, size: SpawnSize::Exact(cols, rows), source: None });
            p.announce = Some(name.to_owned());
            p
        },
        Err(e) => Plan::fails(session, e),
    }
}

/// A command of the client at `me`: one without a session can only name its target, and
/// while the popup is up nothing is done to the layout.
pub open spec fn commanded(
    c: RemuxCommand,
    st: StateView,
    clients: Seq<(u64, ClientView)>,
    me: int,
    d: SessionDefaults,
) -> Step {
    let v = clients[me].1;
    match v.session_name {
        Some(s) => if s.len() > 0 && st.sessions.contains_key(s) && st.sessions[s].popup_up() {
            match c {
                RemuxCommand::Resize(direction, amount) => Step {
                    st,
                    clients,
                    plan: PlanView {
                        ask: Some(popup_change(direction, amount)),
                        settled: false,
                        ..renewed(s)
                    },
                },
                _ => if works_on_layout(c) {
                    Step { st, clients, plan: idle(s) }
                } else {
                    performed(c, s, v.cols, v.rows, st, clients, me, d)
                },
            }
        } else {
            performed(c, s, v.cols, v.rows, st, clients, me, d)
        },
        None => if names_its_target(c) {
            performed(c, Seq::empty(), v.cols, v.rows, st, clients, me, d)
        } else {
            Step { st, clients, plan: idle(Seq::empty()) }
        },
    }
}

/// A client goes to a session.
fn attach_client(clients: &mut Clients, me: usize, session: &str)
    requires
        me < old(clients)@.len(),
    ensures
        final(clients)@ == moved_to(old(clients)@, me as int, session@),
{
    let ghost were = clients.entries@;
    assert(clients@[me as int].1 == were[me as int].1@);
    clients.entries[me].1.attach(session);
    assert(clients@ =~= moved_to(old(clients)@, me as int, session@)) by {
        assert forall|k: int| 0 <= k < clients@.len() && k != me implies clients@[k] == old(
            clients,
        )@[k] by {
            assert(clients.entries@[k] == were[k]);
        }
    }
}

fn detach_client(clients: &mut Clients, me: usize)
    requires
        me < old(clients)@.len(),
    ensures
        final(clients)@ == old(clients)@.update(
            me as int,
            (
                old(clients)@[me as int].0,
                ClientView { session_name: None, ..old(clients)@[me as int].1 },
            ),
        ),
{
    let ghost were = clients.entries@;
    assert(clients@[me as int].1 == were[me as int].1@);
    clients.entries[me].1.detach();
    let ghost goal = old(clients)@.update(
        me as int,
        (
            old(clients)@[me as int].0,
            ClientView { session_name: None, ..old(clients)@[me as int].1 },
        ),
    );
    assert(clients@ =~= goal) by {
        assert forall|k: int| 0 <= k < clients@.len() && k != me implies clients@[k] == old(
            clients,
        )@[k] by {
            assert(clients.entries@[k] == were[k]);
        }
    }
}

/// Attach a client to another session, at one of its tabs.
fn switch_client(
    st: &mut ServerState,
    clients: &mut Clients,
    me: usize,
    session: &str,
    tab_index: usize,
    pane: Option<PaneId>,
) -> (r: Plan)
    requires
        old(st).sound(),
        me < old(clients)@.len(),
    ensures
        final(st).named(),
        (Step { st: final(st)@, clients: final(clients)@, plan: r@ }) == switched(
            old(st)@,
            old(clients)@,
            me as int,
            session@,
            tab_index,
            pane,
        ),
{
    attach_client(clients, me, session);
    match st.goto_tab(session, tab_index) {
        Ok(_) => {
            let ghost k = tab_index as int;
            proof {
                let s = old(st)@.sessions[session@];
                assert(s.sound());
                lemma_tabs_counted(*old(st), session@);
                law_a_session_stays_sound(
                    s,
                    k,
                    TabChange::NextLayout,
                    0,
                    0,
                    LayoutMode::Bsp(BspLayout),
                    Seq::empty(),
                    0,
                );
                law_the_server_stays_sound(old(st)@, session@, s.showing(k));
            }
            match pane {
                Some(p) => {
                    st.change_tab(session, None, TabChange::Focus(p));
                },
                None => {},
            }
            let mut plan = Plan::renewed(session);
            plan.forward = true;
            plan.draw = Audience::Requester;
            plan
        },
        Err(_) => Plan::idle(session),
    }
}

fn rename_session(st: &mut ServerState, clients: &mut Clients, from: &str, to: &str) -> (r: Result<
    Plan,
    StateError,
>)
    requires
        old(st).named(),
    ensures
        final(st).named(),
        match session_renamed(old(st)@, old(clients)@, from@, to@) {
            Ok(step) => r matches Ok(p) && (Step {
                st: final(st)@,
                clients: final(clients)@,
                plan: p@,
            }) == step,
            Err(e) => r matches Err(f) && e == f && final(st)@ == old(st)@ && final(clients)@
                == old(clients)@,
        },
{
    match st.rename_session(from, to) {
        Ok(_) => {
            clients.retarget(from, Some(to));
            Ok(Plan::done(to))
        },
        Err(e) => Err(e),
    }
}

fn delete_folder(st: &mut ServerState, folder: &str, session: &str) -> (r: Plan)
    requires
        old(st).named(),
    ensures
        final(st).named(),
        (final(st)@, r@) == folder_deleted(old(st)@, folder@, session@),
{
    match st.delete_folder_cascade(folder) {
        Ok(gone) => {
            let ghost all = crate::edits::gone_view(gone@);
            let mut reap: Vec<PaneId> = Vec::new();
            let mut names: Vec<String> = Vec::new();
            let mut i: usize = 0;
            while i < gone.len()
                invariant
                    i <= gone.len(),
                    all == crate::edits::gone_view(gone@),
                    reap@ == panes_gone(all, i as int),
                    names.len() == i,
                    forall|k: int| 0 <= k < i ==> (#[trigger] names@[k])@ == all[k].0,
                decreases gone.len() - i,
            {
                names.push(gone[i].0.clone());
                let mut more = crate::layout::copy_ids(&gone[i].1);
                reap.append(&mut more);
                assert(all[i as int].1 == gone@[i as int].1@);
                i += 1;
            }
            let mut p = Plan::done(session);
            p.reap = reap;
            p.gone = Gone::Dismiss(names);
            assert(texts(names@) =~= Seq::new(all.len(), |i: int| all[i].0));
            p
        },
        Err(e) => Plan::fails(session, e),
    }
}

/// Carry out a command on the tab that is shown, or on the look of the session.
#[verifier::spinoff_prover]
fn edit(
    c: RemuxCommand,
    session: &str,
    st: &mut ServerState,
) -> (r: Plan)
    requires
        old(st).sound(),
        old(st)@.next_pane < u64::MAX,
    ensures
        final(st).named(),
        (final(st)@, r@) == edited(c, session@, old(st)@),
{
    match c {
        RemuxCommand::PaneStackNext => edit_tab(st, session, TabChange::Turn(true), false),
        RemuxCommand::PaneStackPrev => edit_tab(st, session, TabChange::Turn(false), false),
        RemuxCommand::Resize(direction, amount) => edit_tab(
            st,
            session,
            layout_resize(direction, amount),
            true,
        ),
        RemuxCommand::LayoutNext => edit_tab(st, session, TabChange::NextLayout, true),
        RemuxCommand::SetMaster => edit_tab(st, session, TabChange::SetMaster, true),
        RemuxCommand::PaneToggleZoom => zoom(st, session),
        RemuxCommand::PaneRename(name) => rename_focused(st, session, name),
        RemuxCommand::TabRename(name) => {
            let i: usize = match st.sessions.get(session) {
                Some(s) => s.active_tab,
                None => {
                    return Plan::idle(session);
                },
            };
            match st.rename_tab(session, i, &name) {
                Ok(_) => Plan::redrawn(session),
                Err(e) => Plan::fails(session, e),
            }
        },
        RemuxCommand::TabMove(number) => {
            assert(st@.sessions.contains_key(session@) ==> st@.sessions[session@].sound());
            match st.sessions.get_mut(session) {
                Some(s) => {
                    s.move_tab(number);
                },
                None => {},
            }
            Plan::redrawn(session)
        },
        RemuxCommand::ToggleStyle => match st.sessions.get_mut(session) {
            Some(s) => {
                s.toggle_style();
                Plan::reshaped(session)
            },
            None => Plan::idle(session),
        },
        _ => Plan::idle(session),
    }
}

/// Carry out a command that starts a terminal.
#[verifier::spinoff_prover]
fn open(
    c: RemuxCommand,
    session: &str,
    cols: u16,
    rows: u16,
    st: &mut ServerState,
    d: &SessionDefaults,
) -> (r: Plan)
    requires
        old(st).sound(),
        old(st)@.next_pane < u64::MAX,
        d.layout_mode.valid(),
    ensures
        final(st).named(),
        (final(st)@, r@) == opened(c, session@, cols, rows, old(st)@, *d),
{
    match c {
        RemuxCommand::PopupToggle => switch_popup(st, session, cols, rows),
        RemuxCommand::TabNew => make_tab(st, session, cols, rows, Plan::renewed(session)),
        RemuxCommand::PaneSplitVertical => make_pane(
            st,
            session,
            PanePlacement::SplitVertical,
            cols,
            rows,
        ),
        RemuxCommand::PaneSplitHorizontal => make_pane(
            st,
            session,
            PanePlacement::SplitHorizontal,
            cols,
            rows,
        ),
        RemuxCommand::PaneStackAdd => make_pane(st, session, PanePlacement::Stack, cols, rows),
        RemuxCommand::PaneNew => make_pane(st, session, PanePlacement::Auto, cols, rows),
        RemuxCommand::SessionNew { name, folder } => {
            let under: Option<&str> = match &folder {
                Some(f) => Some(f.as_str()),
                None => None,
            };
            handle_create_session(st, &name, under, cols, rows, d, session)
        },
        _ => Plan::idle(session),
    }
}

/// Carry out a command that shows another tab, closes something, or only asks.
#[verifier::spinoff_prover]
fn steer(
    c: RemuxCommand,
    session: &str,
    cols: u16,
    rows: u16,
    st: &mut ServerState,
) -> (r: Plan)
    requires
        old(st).sound(),
        old(st)@.next_pane < u64::MAX,
    ensures
        final(st).named(),
        (final(st)@, r@) == steered(c, session@, cols, rows, old(st)@),
{
    match c {
        RemuxCommand::TabClose => {
            let i: usize = match st.sessions.get(session) {
                Some(s) => s.active_tab,
                None => {
                    return Plan::idle(session);
                },
            };
            let mut plan = Plan::redrawn(session);
            plan.invalidate = true;
            match close_tab(st, session, i, plan) {
                Ok(p) => p,
                Err(e) => Plan::fails(session, e),
            }
        },
        RemuxCommand::TabGoto(i) => show_tab(st, session, i),
        RemuxCommand::TabNext => step_tab(st, session, true),
        RemuxCommand::TabPrev => step_tab(st, session, false),
        RemuxCommand::PaneClose => match st.input_target(session) {
            Some(pane) => close_pane(st, session, pane),
            None => Plan::idle(session),
        },
        RemuxCommand::PaneFocus(direction) => if st.find_tab(session, None).is_some() {
            let mut p = Plan::redrawn(session);
            p.ask = Some(Ask::Focus { direction, area: content_area(cols, rows) });
            p
        } else {
            Plan::idle(session)
        },
        RemuxCommand::PaneMove(direction) => if st.find_tab(session, None).is_some() {
            let mut p = Plan::reshaped(session);
            p.ask = Some(Ask::Move { direction, area: content_area(cols, rows) });
            p
        } else {
            Plan::idle(session)
        },
        RemuxCommand::SendKey(bytes) => match st.focused(session) {
            Some(pane) => {
                let mut p = Plan::done(session);
                p.keys = Some((pane, bytes));
                p
            },
            None => Plan::idle(session),
        },
        RemuxCommand::SessionList => {
            let mut p = Plan::done(session);
            p.list = true;
            p
        },
        RemuxCommand::FolderList => Plan::done(session),
        RemuxCommand::Other => Plan::done(session),
        _ => Plan::idle(session),
    }
}

/// Carry out a command on the folders.
#[verifier::spinoff_prover]
fn organise(
    c: RemuxCommand,
    session: &str,
    st: &mut ServerState,
) -> (r: Plan)
    requires
        old(st).sound(),
        old(st)@.next_pane < u64::MAX,
    ensures
        final(st).named(),
        (final(st)@, r@) == organised(c, session@, old(st)@),
{
    match c {
        RemuxCommand::FolderNew(name) => match st.create_folder(&name) {
            Ok(_) => Plan::done(session),
            Err(e) => Plan::fails(session, e),
        },
        RemuxCommand::FolderDelete(name) => delete_folder(st, &name, session),
        RemuxCommand::FolderMoveSession { session: which, folder } => {
            let under: Option<&str> = match &folder {
                Some(f) => Some(f.as_str()),
                None => None,
            };
            match st.move_session(&which, under) {
                Ok(_) => Plan::done(session),
                Err(e) => Plan::fails(session, e),
            }
        },
        RemuxCommand::FolderRename { from, to } => {
            let _ = st.rename_folder(&from, &to);
            Plan::done(session)
        },
        _ => Plan::idle(session),
    }
}

/// Carry out a command that moves clients between sessions.
#[verifier::spinoff_prover]
fn reattach(
    c: RemuxCommand,
    session: &str,
    st: &mut ServerState,
    clients: &mut Clients,
    me: usize,
) -> (r: Plan)
    requires
        old(st).sound(),
        old(st)@.next_pane < u64::MAX,
        me < old(clients)@.len(),
    ensures
        final(st).named(),
        (Step { st: final(st)@, clients: final(clients)@, plan: r@ }) == reattached(c, session@, old(st)@, old(clients)@, me as int),
{
    match c {
        RemuxCommand::SessionDetach => {
            detach_client(clients, me);
            Plan::done(session)
        },
        RemuxCommand::SessionRename(name) => match rename_session(st, clients, session, &name) {
            Ok(p) => p,
            Err(e) => Plan::fails(session, e),
        },
        RemuxCommand::SessionSwitchTab { session: there, tab_index } => switch_client(
            st,
            clients,
            me,
            &there,
            tab_index,
            None,
        ),
        RemuxCommand::SessionSwitchPane { session: there, tab_index, pane_id } => switch_client(
            st,
            clients,
            me,
            &there,
            tab_index,
            Some(pane_id),
        ),
        RemuxCommand::SessionRenameByName { from, to } => match rename_session(
            st,
            clients,
            &from,
            &to,
        ) {
            Ok(p) => p,
            Err(_) => Plan::idle(&from),
        },
        _ => Plan::idle(session),
    }
}

/// Carry out a command on a session that it names.
#[verifier::spinoff_prover]
fn reach(
    c: RemuxCommand,
    st: &mut ServerState,
    clients: &Clients,
) -> (r: Plan)
    requires
        old(st).sound(),
        old(st)@.next_pane < u64::MAX,
    ensures
        final(st).named(),
        (final(st)@, r@) == reached(c, old(st)@, clients@),
{
    match c {
        RemuxCommand::TabCloseByIndex { session: there, tab_index } => {
            let mut plan = Plan::redrawn(&there);
            plan.invalidate = true;
            plan.resize = clients.has_client(&there);
            match close_tab(st, &there, tab_index, plan) {
                Ok(p) => p,
                Err(_) => Plan::done(&there),
            }
        },
        RemuxCommand::TabNewInSession { session: there } => {
            let (cols, rows) = clients.session_render_size(&there);
            let plan = Plan::refreshed(&there, clients.has_client(&there));
            if st.sessions.contains_key(&there) {
                make_tab(st, &there, cols, rows, plan)
            } else {
                Plan::idle(&there)
            }
        },
        RemuxCommand::TabRenameByIndex { session: there, tab_index, name } => {
            match st.rename_tab(&there, tab_index, &name) {
                Ok(_) => Plan::refreshed(&there, clients.has_client(&there)),
                Err(_) => Plan::idle(&there),
            }
        },
        RemuxCommand::PaneNewInTab { session: there, tab_index } => {
            let (cols, rows) = clients.session_render_size(&there);
            make_pane_in(st, &there, tab_index, cols, rows, clients.has_client(&there))
        },
        RemuxCommand::PaneCloseById { session: there, pane_id } => close_any_pane(
            st,
            &there,
            pane_id,
            clients.has_client(&there),
        ),
        RemuxCommand::PaneRenameById { session: there, pane_id, name } => rename_any_pane(
            st,
            &there,
            pane_id,
            name,
            clients.has_client(&there),
        ),
        RemuxCommand::TabMoveByIndex { session: there, tab_index, delta } => {
            match st.move_tab(&there, tab_index, delta) {
                Ok(_) => Plan::refreshed(&there, clients.has_client(&there)),
                Err(_) => Plan::idle(&there),
            }
        },
        _ => {
            proof {
                reveal_strlit("");
            }
            assert(""@ =~= Seq::empty());
            Plan::idle("")
        },
    }
}

/// Carry out a command for the client at `me`.
fn perform(
    c: RemuxCommand,
    session: &str,
    cols: u16,
    rows: u16,
    st: &mut ServerState,
    clients: &mut Clients,
    me: usize,
    d: &SessionDefaults,
) -> (r: Plan)
    requires
        old(st).sound(),
        old(st)@.next_pane < u64::MAX,
        me < old(clients)@.len(),
        d.layout_mode.valid(),
    ensures
        final(st).named(),
        (Step { st: final(st)@, clients: final(clients)@, plan: r@ }) == performed(
            c,
            session@,
            cols,
            rows,
            old(st)@,
            old(clients)@,
            me as int,
            *d,
        ),
{
    match c {
        RemuxCommand::PaneStackNext => edit(c, session, st),
        RemuxCommand::PaneStackPrev => edit(c, session, st),
        RemuxCommand::Resize(..) => edit(c, session, st),
        RemuxCommand::LayoutNext => edit(c, session, st),
        RemuxCommand::SetMaster => edit(c, session, st),
        RemuxCommand::PaneToggleZoom => edit(c, session, st),
        RemuxCommand::PaneRename(..) => edit(c, session, st),
        RemuxCommand::TabRename(..) => edit(c, session, st),
        RemuxCommand::TabMove(..) => edit(c, session, st),
        RemuxCommand::ToggleStyle => edit(c, session, st),
        RemuxCommand::PopupToggle => open(c, session, cols, rows, st, d),
        RemuxCommand::TabNew => open(c, session, cols, rows, st, d),
        RemuxCommand::PaneSplitVertical => open(c, session, cols, rows, st, d),
        RemuxCommand::PaneSplitHorizontal => open(c, session, cols, rows, st, d),
        RemuxCommand::PaneStackAdd => open(c, session, cols, rows, st, d),
        RemuxCommand::PaneNew => open(c, session, cols, rows, st, d),
        RemuxCommand::SessionNew { .. } => open(c, session, cols, rows, st, d),
        RemuxCommand::TabClose => steer(c, session, cols, rows, st),
        RemuxCommand::TabGoto(..) => steer(c, session, cols, rows, st),
        RemuxCommand::TabNext => steer(c, session, cols, rows, st),
        RemuxCommand::TabPrev => steer(c, session, cols, rows, st),
        RemuxCommand::PaneClose => steer(c, session, cols, rows, st),
        RemuxCommand::PaneFocus(..) => steer(c, session, cols, rows, st),
        RemuxCommand::PaneMove(..) => steer(c, session, cols, rows, st),
        RemuxCommand::SendKey(..) => steer(c, session, cols, rows, st),
        RemuxCommand::SessionList => steer(c, session, cols, rows, st),
        RemuxCommand::FolderList => steer(c, session, cols, rows, st),
        RemuxCommand::Other => steer(c, session, cols, rows, st),
        RemuxCommand::FolderNew(..) => organise(c, session, st),
        RemuxCommand::FolderDelete(..) => organise(c, session, st),
        RemuxCommand::FolderMoveSession { .. } => organise(c, session, st),
        RemuxCommand::FolderRename { .. } => organise(c, session, st),
        RemuxCommand::SessionDetach => reattach(c, session, st, clients, me),
        RemuxCommand::SessionRename(..) => reattach(c, session, st, clients, me),
        RemuxCommand::SessionSwitchTab { .. } => reattach(c, session, st, clients, me),
        RemuxCommand::SessionSwitchPane { .. } => reattach(c, session, st, clients, me),
        RemuxCommand::SessionRenameByName { .. } => reattach(c, session, st, clients, me),
        RemuxCommand::TabCloseByIndex { .. } => reach(c, st, clients),
        RemuxCommand::TabNewInSession { .. } => reach(c, st, clients),
        RemuxCommand::TabRenameByIndex { .. } => reach(c, st, clients),
        RemuxCommand::PaneNewInTab { .. } => reach(c, st, clients),
        RemuxCommand::PaneCloseById { .. } => reach(c, st, clients),
        RemuxCommand::PaneRenameById { .. } => reach(c, st, clients),
        RemuxCommand::TabMoveByIndex { .. } => reach(c, st, clients),
    }
}

/// `me` is the place of the client with an id.
pub open spec fn is_client(clients: Seq<(u64, ClientView)>, id: u64, me: int) -> bool {
    &&& 0 <= me < clients.len()
    &&& clients[me].0 == id
    &&& forall|k: int| 0 <= k < me ==> (#[trigger] clients[k]).0 != id
}

/// Carry out a command of a client. Nothing happens for a client that is not there.
pub fn handle_command(
    client_id: u64,
    c: RemuxCommand,
    st: &mut ServerState,
    clients: &mut Clients,
    d: &SessionDefaults,
) -> (r: Option<Plan>)
    requires
        old(st).sound(),
        old(st)@.next_pane < u64::MAX,
        d.layout_mode.valid(),
    ensures
        final(st).sound(),
        forall|me: int| #[trigger]
            is_client(old(clients)@, client_id, me) ==> r is Some && (Step {
                st: final(st)@,
                clients: final(clients)@,
                plan: r->0@,
            }) == commanded(c, old(st)@, old(clients)@, me, *d),
        (forall|k: int| 0 <= k < old(clients)@.len() ==> (#[trigger] old(clients)@[k]).0 != client_id)
            ==> r is None && final(st)@ == old(st)@ && final(clients)@ == old(clients)@,
{
    let me: usize = match clients.find(client_id) {
        Some(i) => i,
        None => {
            return None;
        },
    };
    assert(is_client(clients@, client_id, me as int));
    assert(forall|k: int| #[trigger] is_client(clients@, client_id, k) ==> k == me);
    assert(clients@[me as int].1 == clients.entries@[me as int].1@);
    let cols: u16 = clients.entries[me].1.cols;
    let rows: u16 = clients.entries[me].1.rows;
    let name: Option<String> = crate::layout::copy_opt(&clients.entries[me].1.session_name);
    let plan: Plan = match name {
        Some(s) => {
            let popup: bool = !no_text(&s) && (match st.sessions.get(&s) {
                Some(x) => x.popup_visible && x.popup_pane.is_some(),
                None => false,
            });
            if popup {
                match c {
                    RemuxCommand::Resize(direction, amount) => {
                        let mut p = Plan::renewed(&s);
                        p.settled = false;
                        p.ask = Some(resize_question(direction, amount));
                        p
                    },
                    _ => if is_barred_by_popup(&c) {
                        Plan::idle(&s)
                    } else {
                        perform(c, &s, cols, rows, st, clients, me, d)
                    },
                }
            } else {
                perform(c, &s, cols, rows, st, clients, me, d)
            }
        },
        None => {
            proof {
                reveal_strlit("");
            }
            assert(""@ =~= Seq::empty());
            if has_own_target(&c) {
                perform(c, "", cols, rows, st, clients, me, d)
            } else {
                Plan::idle("")
            }
        },
    };
    proof {
        assert forall|k: Seq<char>| #[trigger] old(st)@.sessions.contains_key(k) implies old(
            st,
        )@.sessions[k].tabs.len() <= usize::MAX by {
            lemma_tabs_counted(*old(st), k);
        }
        law_a_command_keeps_the_server_sound(c, old(st)@, old(clients)@, me as int, *d);
    }
    Some(plan)
}

} // verus!
