//! Changes to the server's sessions and folders, by name.

use crate::layout::{Direction, LayoutNode, PaneId};
use crate::layout_modes::LayoutMode;
use crate::names::NameMap;
use crate::session::{moved, panes_of, CloseAction, Session, SessionView};
use crate::state::{
    filed, opt_str, unfiled, with_name, without_name, FolderView, ServerState, StateError,
    StateView,
};
use crate::tab::{PanePlacement, Tab, TabView};
use crate::text::{decimal, decimal_chars, push_char};
use vstd::prelude::*;

verus! {

// ---------------------------------------------------------------------------
// One tab
// ---------------------------------------------------------------------------

/// A change to a tab.
#[derive(Debug)]
pub enum TabChange {
    /// The focus moves to a pane.
    Focus(PaneId),
    /// A new pane.
    Place(PanePlacement, PaneId),
    /// A split around the focused pane moves.
    Resize(Direction, i64),
    NextLayout,
    SetMaster,
    /// The stack of the focused pane turns, forward or back.
    Turn(bool),
    /// A pane gets a name of the user's own.
    NamePane(PaneId, String),
    /// The tab gets a name.
    NameTab(String),
    ToggleZoom,
    /// The panes are arranged anew by hand.
    Arrange(LayoutNode),
    /// The arrangement shows other panes of its stacks, and the focus moves.
    Show(LayoutNode, Option<PaneId>),
}

impl TabView {
    /// The tab after a change.
    pub open spec fn changed(self, c: TabChange) -> TabView {
        match c {
            TabChange::Focus(p) => self.focus(p),
            TabChange::Place(how, p) => self.placed(how, p),
            TabChange::Resize(direction, delta) => self.resized(direction, delta as int),
            TabChange::NextLayout => self.next_layout(),
            TabChange::SetMaster => self.mastered(),
            TabChange::Turn(forward) => self.turned(forward),
            TabChange::NamePane(p, name) => self.renamed(p, name@),
            TabChange::NameTab(name) => TabView { name: name@, ..self },
            TabChange::ToggleZoom => self.zoom_toggled(),
            TabChange::Arrange(tree) => TabView { layout: tree@, ..self.by_hand() },
            TabChange::Show(tree, target) => {
                let shown = TabView { layout: tree@, ..self };
                match target {
                    Some(p) => shown.focus(p),
                    None => shown,
                }
            },
        }
    }
}

impl Tab {
    /// Change the tab.
    pub fn apply(&mut self, c: TabChange)
        requires
            old(self)@.sound(),
        ensures
            final(self)@ == old(self)@.changed(c),
    {
        match c {
            TabChange::Focus(p) => self.focus_pane(p),
            TabChange::Place(how, p) => self.place_pane(how, p),
            TabChange::Resize(direction, delta) => self.resize_focused(direction, delta),
            TabChange::NextLayout => self.cycle_layout(),
            TabChange::SetMaster => self.set_master(),
            TabChange::Turn(forward) => self.turn_stack(forward),
            TabChange::NamePane(p, name) => self.rename_pane(p, &name),
            TabChange::NameTab(name) => {
                self.name = name;
            },
            TabChange::ToggleZoom => {
                self.toggle_zoom();
            },
            TabChange::Arrange(tree) => {
                self.layout_mode = LayoutMode::Custom(crate::layout_modes::CustomLayout);
                self.layout = tree;
            },
            TabChange::Show(tree, target) => {
                self.layout = tree;
                match target {
                    Some(p) => self.focus_pane(p),
                    None => {},
                }
            },
        }
    }
}

impl Session {
    /// Change a tab.
    pub fn change_tab(&mut self, i: usize, c: TabChange)
        requires
            i < old(self)@.tabs.len(),
            old(self)@.tabs[i as int].sound(),
        ensures
            final(self)@ == old(self)@.with_tab(i as int, old(self)@.tabs[i as int].changed(c)),
    {
        let ghost before = self@.tabs;
        assert(before[i as int] == self.tabs@[i as int]@);
        self.tabs[i].apply(c);
        assert(self@ =~= old(self)@.with_tab(i as int, before[i as int].changed(c)));
    }
}

// ---------------------------------------------------------------------------
// One session
// ---------------------------------------------------------------------------

/// The name of the tab that is made when there are `n` already.
pub open spec fn tab_name(n: nat) -> Seq<char> {
    "Tab "@ + decimal(n + 1)
}

/// The name of the tab that is made when there are `n` already.
pub fn next_tab_name(n: usize) -> (r: String)
    ensures
        r@ == tab_name(n as nat),
{
    let digits = decimal_chars(n as u128 + 1);
    let mut r = "Tab ".to_owned();
    let mut i: usize = 0;
    while i < digits.len()
        invariant
            i <= digits.len(),
            r@ == "Tab "@ + digits@.take(i as int),
        decreases digits.len() - i,
    {
        assert(digits@.take(i + 1) =~= digits@.take(i as int).push(digits@[i as int]));
        push_char(&mut r, digits[i]);
        i += 1;
    }
    assert(digits@.take(i as int) =~= digits@);
    r
}

impl SessionView {
    /// Every pane of the session, the popup's last.
    pub open spec fn everything(self) -> Seq<PaneId> {
        let tabs = panes_of(self.tabs, self.tabs.len() as int);
        match self.popup {
            Some(p) => tabs.push(p),
            None => tabs,
        }
    }

    /// A tab shifted by some places, as far as the list goes. The tab that is shown
    /// stays on the screen.
    pub open spec fn tab_shifted(self, i: int, delta: int) -> SessionView {
        let to = shifted(i, delta, self.tabs.len() as int);
        SessionView {
            tabs: moved(self.tabs, i, to),
            active: place_after_move(self.active as int, i, to) as usize,
            ..self
        }
    }
}

/// The place that a shift leads to.
pub open spec fn shifted(i: int, delta: int, n: int) -> int {
    if i + delta < 0 {
        0
    } else if i + delta >= n {
        n - 1
    } else {
        i + delta
    }
}

/// Where an entry is after another one was moved.
pub open spec fn place_after_move(k: int, from: int, to: int) -> int {
    if k == from {
        to
    } else if from < k <= to {
        k - 1
    } else if to <= k < from {
        k + 1
    } else {
        k
    }
}

impl Session {
    /// Every pane of the session, the popup's last.
    pub fn every_pane(&self) -> (r: Vec<PaneId>)
        ensures
            r@ == self@.everything(),
    {
        let mut r = self.all_panes();
        match self.popup_pane {
            Some(p) => r.push(p),
            None => {},
        }
        r
    }

    /// Shift a tab.
    pub fn shift_tab(&mut self, i: usize, delta: i32)
        requires
            i < old(self)@.tabs.len(),
            old(self)@.active < old(self)@.tabs.len(),
        ensures
            final(self)@ == old(self)@.tab_shifted(i as int, delta as int),
    {
        let n: usize = self.tabs.len();
        let to: usize = if delta < 0 {
            let back: u32 = if delta == i32::MIN {
                0x8000_0000
            } else {
                (-delta) as u32
            };
            if (i as u128) < back as u128 {
                0
            } else {
                i - back as usize
            }
        } else if i as u128 + delta as u128 >= n as u128 {
            n - 1
        } else {
            i + delta as usize
        };
        let ghost before = self.tabs@;
        let tab = self.tabs.remove(i);
        self.tabs.insert(to, tab);
        assert(self@.tabs =~= moved(old(self)@.tabs, i as int, to as int));
        let k: usize = self.active_tab;
        self.active_tab = if k == i {
            to
        } else if i < k && k <= to {
            k - 1
        } else if to <= k && k < i {
            k + 1
        } else {
            k
        };
        assert(self@ =~= old(self)@.tab_shifted(i as int, delta as int));
    }
}

// ---------------------------------------------------------------------------
// All sessions
// ---------------------------------------------------------------------------

impl StateView {
    /// The index of a tab of a session: the given one, or the one that is shown.
    pub open spec fn tab_at(self, session: Seq<char>, i: Option<usize>) -> Option<int> {
        if !self.sessions.contains_key(session) {
            None
        } else {
            let s = self.sessions[session];
            let k = match i {
                Some(k) => k,
                None => s.active,
            };
            if k < s.tabs.len() {
                Some(k as int)
            } else {
                None
            }
        }
    }

    /// What is wrong with the name of a session and the index of a tab.
    pub open spec fn tab_error(self, session: Seq<char>, i: usize) -> StateError {
        if !self.sessions.contains_key(session) {
            StateError::NoSession
        } else {
            StateError::NoTab
        }
    }

    /// One session replaced.
    pub open spec fn with(self, name: Seq<char>, s: SessionView) -> StateView {
        StateView { sessions: self.sessions.insert(name, s), ..self }
    }

    /// A tab changed.
    pub open spec fn tab_changed(self, session: Seq<char>, k: int, c: TabChange) -> StateView {
        let s = self.sessions[session];
        self.with(session, s.with_tab(k, s.tabs[k].changed(c)))
    }

    /// A session gone, from its folder too.
    pub open spec fn without_session(self, name: Seq<char>) -> StateView {
        StateView {
            sessions: self.sessions.remove(name),
            folders: unfiled(self.folders, self.sessions[name].folder, name),
            ..self
        }
    }

    /// A new tab of one pane, shown.
    pub open spec fn tab_added(self, session: Seq<char>, mode: LayoutMode) -> StateView {
        let s = self.sessions[session];
        let t = TabView::fresh(tab_name(s.tabs.len()), mode, self.next_pane);
        StateView {
            next_pane: (self.next_pane + 1) as u64,
            ..self.with(session, s.with_new_tab(t))
        }
    }

    /// A session under another name.
    pub open spec fn session_renamed(self, from: Seq<char>, to: Seq<char>) -> StateView {
        let s = self.sessions[from];
        StateView {
            sessions: self.sessions.remove(from).insert(to, SessionView { name: to, ..s }),
            folders: match s.folder {
                Some(f) => if self.folders.contains_key(f) {
                    self.folders.insert(
                        f,
                        FolderView {
                            session_ids: with_name(
                                without_name(self.folders[f].session_ids, from),
                                to,
                            ),
                            ..self.folders[f]
                        },
                    )
                } else {
                    self.folders
                },
                None => self.folders,
            },
            ..self
        }
    }

    /// A session filed under another folder, or none.
    pub open spec fn session_filed(self, session: Seq<char>, folder: Option<Seq<char>>) -> StateView {
        let s = self.sessions[session];
        StateView {
            sessions: self.sessions.insert(session, SessionView { folder, ..s }),
            folders: filed(unfiled(self.folders, s.folder, session), folder, session),
            ..self
        }
    }

    /// A folder under another name, its sessions with it.
    pub open spec fn folder_renamed(self, from: Seq<char>, to: Seq<char>) -> StateView {
        StateView {
            sessions: self.sessions.map_values(|s: SessionView| refiled(s, from, to)),
            folders: self.folders.remove(from).insert(
                to,
                FolderView { name: to, ..self.folders[from] },
            ),
            ..self
        }
    }
}

/// A session that goes along when its folder is renamed.
pub open spec fn refiled(s: SessionView, from: Seq<char>, to: Seq<char>) -> SessionView {
    if s.folder == Some(from) {
        SessionView { folder: Some(to), ..s }
    } else {
        s
    }
}

/// The first `n` sessions of a list gone: the state that is left, and what went with
/// its panes.
pub open spec fn cascaded(st: StateView, ids: Seq<Seq<char>>, n: int) -> (
    StateView,
    Seq<(Seq<char>, Seq<PaneId>)>,
)
    decreases n,
{
    if n <= 0 {
        (st, Seq::empty())
    } else {
        let (left, gone) = cascaded(st, ids, n - 1);
        let name = ids[n - 1];
        if left.sessions.contains_key(name) {
            (
                StateView { sessions: left.sessions.remove(name), ..left },
                gone.push((name, left.sessions[name].everything())),
            )
        } else {
            (left, gone)
        }
    }
}

/// What went, as text.
pub open spec fn gone_view(v: Seq<(String, Vec<PaneId>)>) -> Seq<(Seq<char>, Seq<PaneId>)> {
    Seq::new(v.len(), |i: int| (v[i].0@, v[i].1@))
}

impl ServerState {
    /// The index of a tab of a session: the given one, or the one that is shown.
    pub fn find_tab(&self, session: &str, i: Option<usize>) -> (r: Option<usize>)
        ensures
            match r {
                Some(k) => self@.tab_at(session@, i) == Some(k as int),
                None => self@.tab_at(session@, i) is None,
            },
    {
        match self.sessions.get(session) {
            Some(s) => {
                let k: usize = match i {
                    Some(k) => k,
                    None => s.active_tab,
                };
                assert(s@.tabs.len() == s.tabs.len());
                if k < s.tabs.len() {
                    Some(k)
                } else {
                    None
                }
            },
            None => None,
        }
    }

    /// Change a tab of a session: the given one, or the one that is shown. False if
    /// there is none.
    pub fn change_tab(&mut self, session: &str, i: Option<usize>, c: TabChange) -> (r: bool)
        requires
            old(self).sound(),
        ensures
            final(self).named(),
            match old(self)@.tab_at(session@, i) {
                Some(k) => r && final(self)@ == old(self)@.tab_changed(session@, k, c),
                None => !r && final(self)@ == old(self)@,
            },
    {
        match self.find_tab(session, i) {
            Some(k) => {
                match self.sessions.get_mut(session) {
                    Some(s) => {
                        s.change_tab(k, c);
                    },
                    None => {},
                }
                assert(self@ =~= old(self)@.tab_changed(session@, k as int, c));
                true
            },
            None => false,
        }
    }

    /// Make a tab of one pane and show it; the pane's id.
    pub fn create_tab(&mut self, session: &str, mode: LayoutMode) -> (r: Result<
        PaneId,
        StateError,
    >)
        requires
            old(self).named(),
            old(self)@.next_pane < u64::MAX,
            mode.valid(),
        ensures
            final(self).named(),
            if old(self)@.sessions.contains_key(session@) {
                r == Ok::<PaneId, StateError>(old(self)@.next_pane) && final(self)@ == old(
                    self,
                )@.tab_added(session@, mode)
            } else {
                r == Err::<PaneId, StateError>(StateError::NoSession) && final(self)@ == old(self)@
            },
    {
        let pane: PaneId = self.next_pane;
        match self.sessions.get_mut(session) {
            Some(s) => {
                let ghost was = s@;
                let name = next_tab_name(s.tabs.len());
                s.add_tab(Tab::new(&name, mode, pane));
                assert(s@ == was.with_new_tab(
                    TabView::fresh(tab_name(was.tabs.len()), mode, pane),
                ));
            },
            None => {
                return Err(StateError::NoSession);
            },
        }
        self.next_pane = pane + 1;
        assert(self@ =~= old(self)@.tab_added(session@, mode));
        Ok(pane)
    }

    /// Delete a session; its panes.
    pub fn delete_session(&mut self, name: &str) -> (r: Result<Vec<PaneId>, StateError>)
        requires
            old(self).named(),
        ensures
            final(self).named(),
            if old(self)@.sessions.contains_key(name@) {
                r matches Ok(v) && v@ == old(self)@.sessions[name@].everything() && final(self)@
                    == old(self)@.without_session(name@)
            } else {
                r matches Err(e) && e == StateError::NoSession && final(self)@ == old(self)@
            },
    {
        match self.sessions.remove(name) {
            Some(s) => {
                let panes = s.every_pane();
                match &s.folder {
                    Some(f) => match self.folders.get_mut(f) {
                        Some(entry) => entry.unfile(name),
                        None => {},
                    },
                    None => {},
                }
                assert(self@ =~= old(self)@.without_session(name@));
                Ok(panes)
            },
            None => {
                assert(old(self)@.sessions.remove(name@) =~= old(self)@.sessions);
                Err(StateError::NoSession)
            },
        }
    }

    /// Close a tab: its panes, and whether the session went with it.
    pub fn close_tab(&mut self, session: &str, i: usize) -> (r: Result<
        (Vec<PaneId>, bool),
        StateError,
    >)
        requires
            old(self).sound(),
        ensures
            final(self).named(),
            match old(self)@.tab_at(session@, Some(i)) {
                Some(k) => {
                    let s = old(self)@.sessions[session@];
                    &&& r is Ok
                    &&& (r->Ok_0).1 == (s.tabs.len() == 1)
                    &&& if s.tabs.len() == 1 {
                        (r->Ok_0).0@ == s.everything() && final(self)@ == old(
                            self,
                        )@.without_session(session@)
                    } else {
                        (r->Ok_0).0@ == s.tabs[k].order && final(self)@ == old(self)@.with(
                            session@,
                            s.without_tab(k),
                        )
                    }
                },
                None => r matches Err(e) && e == old(self)@.tab_error(session@, i) && final(self)@
                    == old(self)@,
            },
    {
        let last: bool = match self.sessions.get(session) {
            Some(s) => {
                assert(s@.tabs.len() == s.tabs.len());
                if i >= s.tabs.len() {
                    return Err(StateError::NoTab);
                }
                s.tabs.len() == 1
            },
            None => {
                return Err(StateError::NoSession);
            },
        };
        if last {
            match self.delete_session(session) {
                Ok(panes) => Ok((panes, true)),
                Err(e) => Err(e),
            }
        } else {
            match self.sessions.get_mut(session) {
                Some(s) => {
                    let panes = s.remove_tab(i);
                    Ok((panes, false))
                },
                None => Err(StateError::NoSession),
            }
        }
    }

    /// Show a tab.
    pub fn goto_tab(&mut self, session: &str, i: usize) -> (r: Result<(), StateError>)
        requires
            old(self).named(),
        ensures
            final(self).named(),
            match old(self)@.tab_at(session@, Some(i)) {
                Some(k) => r is Ok && final(self)@ == old(self)@.with(
                    session@,
                    old(self)@.sessions[session@].showing(k),
                ),
                None => r matches Err(e) && e == old(self)@.tab_error(session@, i) && final(self)@
                    == old(self)@,
            },
    {
        if self.find_tab(session, Some(i)).is_none() {
            return if self.sessions.contains_key(session) {
                Err(StateError::NoTab)
            } else {
                Err(StateError::NoSession)
            };
        }
        match self.sessions.get_mut(session) {
            Some(s) => {
                s.goto_tab(i);
            },
            None => {},
        }
        assert(self@ =~= old(self)@.with(
            session@,
            old(self)@.sessions[session@].showing(i as int),
        ));
        Ok(())
    }

    /// Name a tab.
    pub fn rename_tab(&mut self, session: &str, i: usize, name: &str) -> (r: Result<(), StateError>)
        requires
            old(self).sound(),
        ensures
            final(self).named(),
            match old(self)@.tab_at(session@, Some(i)) {
                Some(k) => {
                    let s = old(self)@.sessions[session@];
                    r is Ok && final(self)@ == old(self)@.with(
                        session@,
                        s.with_tab(k, TabView { name: name@, ..s.tabs[k] }),
                    )
                },
                None => r matches Err(e) && e == old(self)@.tab_error(session@, i) && final(self)@
                    == old(self)@,
            },
    {
        let known = self.sessions.contains_key(session);
        if self.change_tab(session, Some(i), TabChange::NameTab(name.to_owned())) {
            Ok(())
        } else if known {
            Err(StateError::NoTab)
        } else {
            Err(StateError::NoSession)
        }
    }

    /// Shift a tab by some places.
    pub fn move_tab(&mut self, session: &str, i: usize, delta: i32) -> (r: Result<(), StateError>)
        requires
            old(self).sound(),
        ensures
            final(self).named(),
            match old(self)@.tab_at(session@, Some(i)) {
                Some(k) => r is Ok && final(self)@ == old(self)@.with(
                    session@,
                    old(self)@.sessions[session@].tab_shifted(k, delta as int),
                ),
                None => r matches Err(e) && e == old(self)@.tab_error(session@, i) && final(self)@
                    == old(self)@,
            },
    {
        if self.find_tab(session, Some(i)).is_none() {
            return if self.sessions.contains_key(session) {
                Err(StateError::NoTab)
            } else {
                Err(StateError::NoSession)
            };
        }
        match self.sessions.get_mut(session) {
            Some(s) => {
                s.shift_tab(i, delta);
            },
            None => {},
        }
        assert(self@ =~= old(self)@.with(
            session@,
            old(self)@.sessions[session@].tab_shifted(i as int, delta as int),
        ));
        Ok(())
    }

    /// Give a session another name.
    pub fn rename_session(&mut self, from: &str, to: &str) -> (r: Result<(), StateError>)
        requires
            old(self).named(),
        ensures
            final(self).named(),
            if !old(self)@.sessions.contains_key(from@) {
                r == Err::<(), StateError>(StateError::NoSession) && final(self)@ == old(self)@
            } else if old(self)@.sessions.contains_key(to@) {
                r == Err::<(), StateError>(StateError::SessionExists) && final(self)@ == old(self)@
            } else {
                r is Ok && final(self)@ == old(self)@.session_renamed(from@, to@)
            },
    {
        if !self.sessions.contains_key(from) {
            return Err(StateError::NoSession);
        }
        if self.sessions.contains_key(to) {
            return Err(StateError::SessionExists);
        }
        match self.sessions.remove(from) {
            Some(s) => {
                let mut s = s;
                match &s.folder {
                    Some(f) => match self.folders.get_mut(f) {
                        Some(entry) => {
                            entry.unfile(from);
                            entry.file(to);
                        },
                        None => {},
                    },
                    None => {},
                }
                s.name = to.to_owned();
                self.sessions.insert(to, s);
            },
            None => {},
        }
        assert(self@ =~= old(self)@.session_renamed(from@, to@));
        Ok(())
    }

    /// File a session under a folder, or under none.
    pub fn move_session(&mut self, session: &str, folder: Option<&str>) -> (r: Result<
        (),
        StateError,
    >)
        requires
            old(self).named(),
        ensures
            final(self).named(),
            if !old(self)@.sessions.contains_key(session@) {
                r == Err::<(), StateError>(StateError::NoSession) && final(self)@ == old(self)@
            } else if opt_str(folder) matches Some(f) && !old(self)@.folders.contains_key(f) {
                r == Err::<(), StateError>(StateError::NoFolder) && final(self)@ == old(self)@
            } else {
                r is Ok && final(self)@ == old(self)@.session_filed(session@, opt_str(folder))
            },
    {
        match folder {
            Some(f) => {
                if self.sessions.contains_key(session) && !self.folders.contains_key(f) {
                    return Err(StateError::NoFolder);
                }
            },
            None => {},
        }
        match self.sessions.get_mut(session) {
            Some(s) => {
                match &s.folder {
                    Some(f) => match self.folders.get_mut(f) {
                        Some(entry) => entry.unfile(session),
                        None => {},
                    },
                    None => {},
                }
                s.folder = match folder {
                    Some(f) => Some(f.to_owned()),
                    None => None,
                };
            },
            None => {
                return Err(StateError::NoSession);
            },
        }
        match folder {
            Some(f) => match self.folders.get_mut(f) {
                Some(entry) => entry.file(session),
                None => {},
            },
            None => {},
        }
        assert(self@.folders =~= old(self)@.session_filed(session@, opt_str(folder)).folders);
        assert(self@ =~= old(self)@.session_filed(session@, opt_str(folder)));
        Ok(())
    }

    /// Give a folder another name. Its sessions go along.
    pub fn rename_folder(&mut self, from: &str, to: &str) -> (r: Result<(), StateError>)
        requires
            old(self).named(),
        ensures
            final(self).named(),
            if !old(self)@.folders.contains_key(from@) {
                r == Err::<(), StateError>(StateError::NoFolder) && final(self)@ == old(self)@
            } else if old(self)@.folders.contains_key(to@) {
                r == Err::<(), StateError>(StateError::FolderExists) && final(self)@ == old(self)@
            } else {
                r is Ok && final(self)@ == old(self)@.folder_renamed(from@, to@)
            },
    {
        if !self.folders.contains_key(from) {
            return Err(StateError::NoFolder);
        }
        if self.folders.contains_key(to) {
            return Err(StateError::FolderExists);
        }
        match self.folders.remove(from) {
            Some(f) => {
                let mut f = f;
                f.name = to.to_owned();
                self.folders.insert(to, f);
            },
            None => {},
        }
        refile_all(&mut self.sessions, from, to);
        assert(self@.folders =~= old(self)@.folder_renamed(from@, to@).folders);
        assert(self@ =~= old(self)@.folder_renamed(from@, to@));
        Ok(())
    }

    /// Delete a folder with its sessions; what went.
    pub fn delete_folder_cascade(&mut self, name: &str) -> (r: Result<
        Vec<(String, Vec<PaneId>)>,
        StateError,
    >)
        requires
            old(self).named(),
        ensures
            final(self).named(),
            if old(self)@.folders.contains_key(name@) {
                let ids = old(self)@.folders[name@].session_ids;
                let bare = StateView { folders: old(self)@.folders.remove(name@), ..old(self)@ };
                r matches Ok(v) && (final(self)@, gone_view(v@)) == cascaded(
                    bare,
                    ids,
                    ids.len() as int,
                )
            } else {
                r matches Err(e) && e == StateError::NoFolder && final(self)@ == old(self)@
            },
    {
        let folder = match self.folders.remove(name) {
            Some(f) => f,
            None => {
                assert(old(self)@.folders.remove(name@) =~= old(self)@.folders);
                return Err(StateError::NoFolder);
            },
        };
        let ghost bare = self@;
        let ghost ids = folder@.session_ids;
        let mut gone: Vec<(String, Vec<PaneId>)> = Vec::new();
        assert(gone_view(gone@) =~= Seq::empty());
        let mut i: usize = 0;
        while i < folder.session_ids.len()
            invariant
                i <= folder.session_ids.len(),
                ids == crate::layout::texts(folder.session_ids@),
                self.named(),
                (self@, gone_view(gone@)) == cascaded(bare, ids, i as int),
            decreases folder.session_ids.len() - i,
        {
            let id: &String = &folder.session_ids[i];
            assert(ids[i as int] == id@);
            let ghost left = self@;
            let ghost before = gone@;
            match self.sessions.remove(id) {
                Some(s) => {
                    let panes = s.every_pane();
                    gone.push((id.clone(), panes));
                    assert(gone_view(gone@) =~= gone_view(before).push(
                        (id@, left.sessions[id@].everything()),
                    ));
                },
                None => {
                    assert(left.sessions.remove(id@) =~= left.sessions);
                },
            }
            i += 1;
        }
        Ok(gone)
    }

    /// Show or hide the popup of a session. The first time, the id of its pane.
    pub fn toggle_popup(&mut self, session: &str) -> (r: Option<PaneId>)
        requires
            old(self).named(),
            old(self)@.next_pane < u64::MAX,
            old(self)@.sessions.contains_key(session@),
        ensures
            final(self).named(),
            final(self)@ == old(self)@.popup_toggled(session@),
            r == (if old(self)@.sessions[session@].popup is None {
                Some(old(self)@.next_pane)
            } else {
                None
            }),
    {
        let fresh: PaneId = self.next_pane;
        let made: bool = match self.sessions.get_mut(session) {
            Some(s) => s.toggle_popup(fresh),
            None => false,
        };
        if made {
            self.next_pane = fresh + 1;
        }
        assert(self@ =~= old(self)@.popup_toggled(session@));
        if made {
            Some(fresh)
        } else {
            None
        }
    }

    /// Close a pane of the tab that a session shows, or its popup; what it comes to, and
    /// the panes that are gone.
    pub fn close_pane(&mut self, session: &str, pane: PaneId) -> (r: (CloseAction, Vec<PaneId>))
        requires
            old(self).sound(),
        ensures
            final(self).named(),
            (final(self)@, r.0, r.1@) == old(self)@.pane_closed(session@, pane),
    {
        let mut gone: Vec<PaneId> = Vec::new();
        assert(self@.sessions.contains_key(session@) ==> self@.sessions[session@].sound());
        let action: CloseAction = match self.sessions.get_mut(session) {
            Some(s) => {
                let (action, popup) = s.close_pane(pane);
                match action {
                    CloseAction::NoBroadcast => {},
                    _ => {
                        gone.push(pane);
                        match popup {
                            Some(p) => gone.push(p),
                            None => {},
                        }
                    },
                }
                action
            },
            None => CloseAction::NoBroadcast,
        };
        match action {
            CloseAction::SessionRemoved => {
                self.sessions.remove(session);
            },
            _ => {},
        }
        assert(self@ =~= old(self)@.pane_closed(session@, pane).0);
        assert(gone@ =~= old(self)@.pane_closed(session@, pane).2);
        (action, gone)
    }

    /// Close a pane of a tab that is not shown; false if there is no such pane.
    pub fn close_background_pane(&mut self, session: &str, pane: PaneId) -> (r: bool)
        requires
            old(self).sound(),
        ensures
            final(self).named(),
            match old(self)@.closed_behind(session@, pane) {
                Some(v) => r && final(self)@ == v,
                None => !r && final(self)@ == old(self)@,
            },
    {
        match self.sessions.get_mut(session) {
            Some(s) => {
                let r = s.close_background_pane(pane);
                if !r {
                    assert(old(self)@.with(session@, old(self)@.sessions[session@]).sessions
                        =~= old(self)@.sessions);
                }
                r
            },
            None => false,
        }
    }

    /// The pane that the input of a session goes to.
    pub fn input_target(&self, session: &str) -> (r: Option<PaneId>)
        ensures
            r == (if self@.sessions.contains_key(session@) {
                self@.sessions[session@].target()
            } else {
                None
            }),
    {
        match self.sessions.get(session) {
            Some(s) => s.input_target(),
            None => None,
        }
    }

    /// The focused pane of the tab that a session shows.
    pub fn focused(&self, session: &str) -> (r: Option<PaneId>)
        ensures
            r == self@.focus_of(session@),
    {
        match self.sessions.get(session) {
            Some(s) => s.focused(),
            None => None,
        }
    }
}

impl StateView {
    /// The focused pane of the tab that a session shows.
    pub open spec fn focus_of(self, session: Seq<char>) -> Option<PaneId> {
        if self.sessions.contains_key(session) {
            match self.sessions[session].current() {
                Some(t) => Some(t.focused),
                None => None,
            }
        } else {
            None
        }
    }

    /// The popup of a session shown or hidden. The first time it gets a pane.
    pub open spec fn popup_toggled(self, session: Seq<char>) -> StateView {
        let s = self.sessions[session];
        StateView {
            next_pane: if s.popup is None {
                (self.next_pane + 1) as u64
            } else {
                self.next_pane
            },
            ..self.with(session, s.popup_toggled(self.next_pane))
        }
    }

    /// A pane of the tab that a session shows closed, or its popup: what is left, what
    /// it comes to, and the panes that are gone.
    pub open spec fn pane_closed(self, session: Seq<char>, pane: PaneId) -> (
        StateView,
        CloseAction,
        Seq<PaneId>,
    ) {
        if self.sessions.contains_key(session) {
            let s = self.sessions[session];
            let (after, action) = s.closing(pane);
            match action {
                CloseAction::NoBroadcast => (self, action, Seq::empty()),
                CloseAction::Broadcast => (self.with(session, after), action, seq![pane]),
                CloseAction::SessionRemoved => (
                    StateView { sessions: self.sessions.remove(session), ..self },
                    action,
                    match s.popup {
                        Some(p) => seq![pane, p],
                        None => seq![pane],
                    },
                ),
            }
        } else {
            (self, CloseAction::NoBroadcast, Seq::empty())
        }
    }

    /// A pane of a tab that is not shown closed.
    pub open spec fn closed_behind(self, session: Seq<char>, pane: PaneId) -> Option<StateView> {
        if self.sessions.contains_key(session) {
            match self.sessions[session].closing_in_background(pane) {
                Some(s) => Some(self.with(session, s)),
                None => None,
            }
        } else {
            None
        }
    }
}

/// The sessions of a folder go along when it gets another name.
fn refile_all(sessions: &mut NameMap<Session>, from: &str, to: &str)
    requires
        old(sessions).wf(),
    ensures
        final(sessions).wf(),
        final(sessions)@ == old(sessions)@.map_values(
            |s: SessionView| refiled(s, from@, to@),
        ),
{
    let ghost first = sessions.entries@;
    let n: usize = sessions.entries.len();
    let mut i: usize = 0;
    while i < n
        invariant
            i <= n,
            n == sessions.entries.len(),
            n == first.len(),
            forall|k: int| 0 <= k < n ==> (#[trigger] sessions.entries@[k]).0 == first[k].0,
            forall|k: int|
                0 <= k < n ==> (#[trigger] sessions.entries@[k]).1@ == (if k < i {
                    refiled(first[k].1@, from@, to@)
                } else {
                    first[k].1@
                }),
        decreases n - i,
    {
        let ghost now = sessions.entries@;
        let hit: bool = match &sessions.entries[i].1.folder {
            Some(f) => crate::text::same_text(f, from),
            None => false,
        };
        if hit {
            sessions.entries[i].1.folder = Some(to.to_owned());
        }
        assert(forall|k: int| 0 <= k < n && k != i ==> #[trigger] sessions.entries@[k] == now[k]);
        assert(sessions.entries@[i as int].1@ =~= refiled(first[i as int].1@, from@, to@));
        i += 1;
    }
    proof {
        let all = sessions.entries@;
        assert(crate::names::names_distinct(all)) by {
            assert forall|a: int, b: int|
                0 <= a < all.len() && 0 <= b < all.len() && a != b implies #[trigger] all[a].0@
                != #[trigger] all[b].0@ by {
                assert(first[a].0@ != first[b].0@);
            }
        }
        crate::names::lemma_entries(first);
        crate::names::lemma_entries(all);
        let goal = old(sessions)@.map_values(|s: SessionView| refiled(s, from@, to@));
        assert forall|k: Seq<char>| #[trigger]
            sessions@.contains_key(k) == goal.contains_key(k) && (sessions@.contains_key(k)
                ==> sessions@[k] == goal[k]) by {
            if sessions@.contains_key(k) {
                let j = choose|j: int| 0 <= j < all.len() && (#[trigger] all[j]).0@ == k;
                assert(first[j].0@ == k);
                assert(old(sessions)@.contains_key(k));
            }
            if goal.contains_key(k) {
                assert(old(sessions)@.contains_key(k));
                let j = choose|j: int| 0 <= j < first.len() && (#[trigger] first[j]).0@ == k;
                assert(all[j].0@ == k);
            }
        }
        assert(sessions@ =~= goal);
    }
}

} // verus!
