//! The sessions of the server, their folders, and the ids given out.

use crate::config::BorderStyle;
use crate::layout::{all_pane_ids, texts, PaneId};
use crate::layout_modes::LayoutMode;
use crate::names::NameMap;
use crate::session::{Session, SessionView};
use crate::tab::{Tab, TabView};
use crate::text::same_text;
use vstd::prelude::*;

verus! {

/// A folder of sessions.
#[derive(Debug)]
pub struct Folder {
    pub name: String,
    /// The names of the sessions filed under it.
    pub session_ids: Vec<String>,
}

/// A folder as a mathematical value.
#[verifier::ext_equal]
pub struct FolderView {
    pub name: Seq<char>,
    pub session_ids: Seq<Seq<char>>,
}

impl View for Folder {
    type V = FolderView;

    open spec fn view(&self) -> FolderView {
        FolderView { name: self.name@, session_ids: texts(self.session_ids@) }
    }
}

/// Why a change of the state was refused.
#[derive(Clone, Copy, PartialEq, Eq, Debug, Structural)]
pub enum StateError {
    NoSession,
    SessionExists,
    NoFolder,
    FolderExists,
    NoTab,
}

impl StateError {
    /// What a client is told of the error.
    pub open spec fn text(self) -> Seq<char> {
        match self {
            StateError::NoSession => "session not found"@,
            StateError::SessionExists => "session already exists"@,
            StateError::NoFolder => "folder not found"@,
            StateError::FolderExists => "folder already exists"@,
            StateError::NoTab => "tab not found"@,
        }
    }

    /// What a client is told of the error.
    pub fn message(&self) -> (r: String)
        ensures
            r@ == self.text(),
    {
        let text: &str = match self {
            StateError::NoSession => "session not found",
            StateError::SessionExists => "session already exists",
            StateError::NoFolder => "folder not found",
            StateError::FolderExists => "folder already exists",
            StateError::NoTab => "tab not found",
        };
        text.to_owned()
    }
}

/// The server's sessions and folders.
#[derive(Debug)]
pub struct ServerState {
    pub sessions: NameMap<Session>,
    pub folders: NameMap<Folder>,
    /// The id that the next pane gets.
    pub next_pane: PaneId,
}

/// The server's state as a mathematical value.
#[verifier::ext_equal]
pub struct StateView {
    pub sessions: Map<Seq<char>, SessionView>,
    pub folders: Map<Seq<char>, FolderView>,
    pub next_pane: PaneId,
}

impl View for ServerState {
    type V = StateView;

    open spec fn view(&self) -> StateView {
        StateView {
            sessions: self.sessions@,
            folders: self.folders@,
            next_pane: self.next_pane,
        }
    }
}

/// The list without any occurrence of a name.
pub open spec fn without_name(s: Seq<Seq<char>>, name: Seq<char>) -> Seq<Seq<char>>
    decreases s.len(),
{
    if s.len() == 0 {
        s
    } else if s.last() == name {
        without_name(s.drop_last(), name)
    } else {
        without_name(s.drop_last(), name).push(s.last())
    }
}

/// The list with a name at its end, unless it is there already.
pub open spec fn with_name(s: Seq<Seq<char>>, name: Seq<char>) -> Seq<Seq<char>> {
    if s.contains(name) {
        s
    } else {
        s.push(name)
    }
}

fn holds_name(v: &Vec<String>, name: &str) -> (r: bool)
    ensures
        r == texts(v@).contains(name@),
{
    let mut i: usize = 0;
    while i < v.len()
        invariant
            i <= v.len(),
            forall|k: int| 0 <= k < i ==> (#[trigger] v@[k])@ != name@,
        decreases v.len() - i,
    {
        if same_text(&v[i], name) {
            assert(texts(v@)[i as int] == name@);
            return true;
        }
        i += 1;
    }
    assert forall|k: int| 0 <= k < texts(v@).len() implies texts(v@)[k] != name@ by {
        assert(v@[k]@ != name@);
    }
    false
}

impl Folder {
    /// A folder without sessions.
    pub fn new(name: &str) -> (r: Folder)
        ensures
            r@ == (FolderView { name: name@, session_ids: Seq::empty() }),
    {
        let r = Folder { name: name.to_owned(), session_ids: Vec::new() };
        assert(texts(r.session_ids@) =~= Seq::empty());
        r
    }

    /// A copy of the folder.
    pub fn duplicate(&self) -> (r: Folder)
        ensures
            r@ == self@,
    {
        Folder {
            name: self.name.clone(),
            session_ids: crate::layout::copy_names(&self.session_ids),
        }
    }

    /// File a session under the folder, once.
    pub fn file(&mut self, session: &str)
        ensures
            final(self)@ == (FolderView {
                session_ids: with_name(old(self)@.session_ids, session@),
                ..old(self)@
            }),
    {
        if !holds_name(&self.session_ids, session) {
            self.session_ids.push(session.to_owned());
            assert(texts(self.session_ids@) =~= texts(old(self).session_ids@).push(session@));
        }
    }

    /// Take a session out of the folder.
    pub fn unfile(&mut self, session: &str)
        ensures
            final(self)@ == (FolderView {
                session_ids: without_name(old(self)@.session_ids, session@),
                ..old(self)@
            }),
    {
        let mut kept: Vec<String> = Vec::new();
        let ghost all = texts(self.session_ids@);
        let mut i: usize = 0;
        assert(texts(kept@) =~= Seq::empty());
        assert(all.take(0) =~= Seq::empty());
        while i < self.session_ids.len()
            invariant
                i <= self.session_ids.len(),
                all == texts(self.session_ids@),
                texts(kept@) == without_name(all.take(i as int), session@),
                *self == *old(self),
            decreases self.session_ids.len() - i,
        {
            assert(all.take(i + 1).drop_last() =~= all.take(i as int));
            assert(all.take(i + 1).last() == self.session_ids@[i as int]@);
            if !same_text(&self.session_ids[i], session) {
                let ghost before = kept@;
                let copy = self.session_ids[i].clone();
                kept.push(copy);
                assert(texts(kept@) =~= texts(before).push(self.session_ids@[i as int]@));
            }
            i += 1;
        }
        assert(all.take(i as int) =~= all);
        self.session_ids = kept;
    }
}

/// The folders with a session taken out of the one that it was filed under.
pub open spec fn unfiled(
    folders: Map<Seq<char>, FolderView>,
    folder: Option<Seq<char>>,
    session: Seq<char>,
) -> Map<Seq<char>, FolderView> {
    match folder {
        Some(f) => if folders.contains_key(f) {
            folders.insert(
                f,
                FolderView {
                    session_ids: without_name(folders[f].session_ids, session),
                    ..folders[f]
                },
            )
        } else {
            folders
        },
        None => folders,
    }
}

/// The folders with a session filed under one, which is made if it is not there.
pub open spec fn filed(
    folders: Map<Seq<char>, FolderView>,
    folder: Option<Seq<char>>,
    session: Seq<char>,
) -> Map<Seq<char>, FolderView> {
    match folder {
        Some(f) => {
            let old_folder = if folders.contains_key(f) {
                folders[f]
            } else {
                FolderView { name: f, session_ids: Seq::empty() }
            };
            folders.insert(
                f,
                FolderView { session_ids: with_name(old_folder.session_ids, session), ..old_folder },
            )
        },
        None => folders,
    }
}

/// The characters behind an optional text.
pub open spec fn opt_str(s: Option<&str>) -> Option<Seq<char>> {
    match s {
        Some(t) => Some(t@),
        None => None,
    }
}

/// A pane id that occurs anywhere in a session.
pub open spec fn occurs(s: SessionView, p: PaneId) -> bool {
    s.has(p) || exists|i: int| 0 <= i < s.tabs.len() && #[trigger] s.tabs[i].layout.ids().contains(p)
}

impl StateView {
    /// Every session is in order, and every pane id is below the next one.
    pub open spec fn wf(self) -> bool {
        &&& forall|k: Seq<char>| #[trigger]
            self.sessions.contains_key(k) ==> self.sessions[k].wf()
        &&& self.ids_reserved()
    }

    /// Every session can be drawn and worked on.
    pub open spec fn sound(self) -> bool {
        forall|k: Seq<char>| #[trigger]
            self.sessions.contains_key(k) ==> self.sessions[k].sound()
    }

    /// Every pane id that occurs is below the next one.
    pub open spec fn ids_reserved(self) -> bool {
        forall|k: Seq<char>, p: PaneId|
            #![trigger self.sessions.contains_key(k), occurs(self.sessions[k], p)]
            self.sessions.contains_key(k) && occurs(self.sessions[k], p) ==> p < self.next_pane
                || self.next_pane == u64::MAX
    }

    /// `next` is the least id from `from` on that is above every pane id that occurs.
    pub open spec fn least_free(self, from: PaneId, next: PaneId) -> bool {
        &&& from <= next
        &&& (StateView { next_pane: next, ..self }).ids_reserved()
        &&& next == from || exists|k: Seq<char>, p: PaneId|
            #![trigger self.sessions.contains_key(k), occurs(self.sessions[k], p)]
            self.sessions.contains_key(k) && occurs(self.sessions[k], p) && (p + 1 == next || p
                == u64::MAX && next == u64::MAX)
    }
}

/// The id after the largest of a list, if that is beyond `from`.
fn raised(from: PaneId, ids: &Vec<PaneId>) -> (r: PaneId)
    ensures
        from <= r,
        forall|p: PaneId| #[trigger] ids@.contains(p) ==> p < r || r == u64::MAX,
        r == from || exists|p: PaneId| #[trigger]
            ids@.contains(p) && (p + 1 == r || p == u64::MAX && r == u64::MAX),
{
    let mut r: PaneId = from;
    let mut i: usize = 0;
    while i < ids.len()
        invariant
            i <= ids.len(),
            from <= r,
            forall|k: int| 0 <= k < i ==> (#[trigger] ids@[k]) < r || r == u64::MAX,
            r == from || exists|p: PaneId| #[trigger]
                ids@.contains(p) && (p + 1 == r || p == u64::MAX && r == u64::MAX),
        decreases ids.len() - i,
    {
        let id: PaneId = ids[i];
        if id >= r {
            r = id.saturating_add(1);
            assert(ids@.contains(id));
        }
        i += 1;
    }
    assert forall|p: PaneId| #[trigger] ids@.contains(p) implies p < r || r == u64::MAX by {
        let k = choose|k: int| 0 <= k < ids.len() && ids@[k] == p;
        assert(ids@[k] < r || r == u64::MAX);
    }
    r
}

/// The least id from `from` on that is above every pane id of a session.
#[verifier::loop_isolation(false)]
fn raised_over(from: PaneId, s: &Session) -> (r: PaneId)
    ensures
        from <= r,
        forall|p: PaneId| #[trigger] occurs(s@, p) ==> p < r || r == u64::MAX,
        r == from || exists|p: PaneId| #[trigger]
            occurs(s@, p) && (p + 1 == r || p == u64::MAX && r == u64::MAX),
{
    let mut r: PaneId = from;
    match s.popup_pane {
        Some(p) => {
            assert(occurs(s@, p));
            if p >= r {
                r = p.saturating_add(1);
            }
        },
        None => {},
    }
    let mut i: usize = 0;
    while i < s.tabs.len()
        invariant
            i <= s.tabs.len(),
            from <= r,
            s@.popup matches Some(p) ==> p < r || r == u64::MAX,
            forall|k: int, p: PaneId|
                0 <= k < i && #[trigger] s@.tabs[k].order.contains(p) ==> p < r || r == u64::MAX,
            forall|k: int, p: PaneId|
                0 <= k < i && #[trigger] s@.tabs[k].layout.ids().contains(p) ==> p < r || r
                    == u64::MAX,
            r == from || exists|p: PaneId| #[trigger]
                occurs(s@, p) && (p + 1 == r || p == u64::MAX && r == u64::MAX),
        decreases s.tabs.len() - i,
    {
        let ghost tab = s@.tabs[i as int];
        assert(tab == s.tabs@[i as int]@);
        let ghost before = r;
        r = raised(r, &s.tabs[i].pane_order);
        proof {
            if r != before {
                let p = choose|p: PaneId| #[trigger]
                    tab.order.contains(p) && (p + 1 == r || p == u64::MAX && r == u64::MAX);
                assert(s@.tabs[i as int].order.contains(p));
                assert(occurs(s@, p));
            }
        }
        let ghost middle = r;
        let ids = all_pane_ids(&s.tabs[i].layout);
        r = raised(r, &ids);
        proof {
            if r != middle {
                let p = choose|p: PaneId| #[trigger]
                    ids@.contains(p) && (p + 1 == r || p == u64::MAX && r == u64::MAX);
                assert(s@.tabs[i as int].layout.ids().contains(p));
                assert(occurs(s@, p));
            }
        }
        i += 1;
    }
    r
}

impl ServerState {
    /// The names of sessions and of folders are distinct.
    pub open spec fn named(&self) -> bool {
        self.sessions.wf() && self.folders.wf()
    }

    /// Every session is in order, and every pane id is below the next one.
    pub open spec fn wf(&self) -> bool {
        self.named() && self@.wf()
    }

    /// Names are distinct, and every session can be drawn and worked on.
    pub open spec fn sound(&self) -> bool {
        self.named() && self@.sound()
    }

    /// A server without sessions.
    pub fn new() -> (r: ServerState)
        ensures
            r.wf(),
            r@ == (StateView { sessions: Map::empty(), folders: Map::empty(), next_pane: 0 }),
    {
        ServerState { sessions: NameMap::new(), folders: NameMap::new(), next_pane: 0 }
    }

    /// Give out a pane id.
    pub fn next_pane_id(&mut self) -> (r: PaneId)
        requires
            old(self)@.next_pane < u64::MAX,
        ensures
            r == old(self)@.next_pane,
            final(self)@ == (StateView { next_pane: (r + 1) as u64, ..old(self)@ }),
            old(self).named() ==> final(self).named(),
    {
        let id: PaneId = self.next_pane;
        self.next_pane = id + 1;
        id
    }

    /// Give out only ids above those that another state may have given out.
    pub fn reserve_ids_above(&mut self, other: &ServerState)
        ensures
            final(self)@ == (StateView {
                next_pane: if other@.next_pane > old(self)@.next_pane {
                    other@.next_pane
                } else {
                    old(self)@.next_pane
                },
                ..old(self)@
            }),
            old(self).named() ==> final(self).named(),
    {
        if other.next_pane > self.next_pane {
            self.next_pane = other.next_pane;
        }
    }

    /// Raise the next pane id above every id that occurs.
    #[verifier::loop_isolation(false)]
    pub fn ensure_id_counters(&mut self)
        requires
            old(self).named(),
        ensures
            final(self)@ == (StateView { next_pane: final(self)@.next_pane, ..old(self)@ }),
            old(self)@.least_free(old(self)@.next_pane, final(self)@.next_pane),
            final(self).named(),
    {
        let mut r: PaneId = self.next_pane;
        let n: usize = self.sessions.entries.len();
        let ghost entries = self.sessions.entries@;
        let ghost all = self@.sessions;
        proof {
            crate::names::lemma_entries(entries);
        }
        let mut i: usize = 0;
        while i < n
            invariant
                i <= n,
                n == self.sessions.entries.len(),
                *self == *old(self),
                old(self)@.next_pane <= r,
                forall|k: int, p: PaneId|
                    0 <= k < i && #[trigger] occurs(entries[k].1@, p) ==> p < r || r == u64::MAX,
                r == old(self)@.next_pane || exists|k: Seq<char>, p: PaneId|
                    #![trigger all.contains_key(k), occurs(all[k], p)]
                    all.contains_key(k) && occurs(all[k], p) && (p + 1 == r || p == u64::MAX && r
                        == u64::MAX),
            decreases n - i,
        {
            let ghost before = r;
            r = raised_over(r, &self.sessions.entries[i].1);
            proof {
                if r != before {
                    let p = choose|p: PaneId| #[trigger]
                        occurs(entries[i as int].1@, p) && (p + 1 == r || p == u64::MAX && r
                            == u64::MAX);
                    let k = entries[i as int].0@;
                    assert(all.contains_key(k));
                    assert(occurs(all[k], p));
                }
            }
            i += 1;
        }
        self.next_pane = r;
        proof {
            let done = StateView { next_pane: r, ..old(self)@ };
            assert forall|k: Seq<char>, p: PaneId|
                #![trigger done.sessions.contains_key(k), occurs(done.sessions[k], p)]
                done.sessions.contains_key(k) && occurs(done.sessions[k], p) implies p
                < done.next_pane || done.next_pane == u64::MAX by {
                assert(all.contains_key(k));
                let j = choose|j: int| 0 <= j < entries.len() && (#[trigger] entries[j]).0@ == k;
                assert(occurs(entries[j].1@, p));
            }
        }
    }

    /// Make a folder.
    pub fn create_folder(&mut self, name: &str) -> (r: Result<(), StateError>)
        requires
            old(self).named(),
        ensures
            r == (if old(self)@.folders.contains_key(name@) {
                Err(StateError::FolderExists)
            } else {
                Ok(())
            }),
            final(self)@ == (if r is Ok {
                StateView {
                    folders: old(self)@.folders.insert(
                        name@,
                        FolderView { name: name@, session_ids: Seq::empty() },
                    ),
                    ..old(self)@
                }
            } else {
                old(self)@
            }),
            final(self).named(),
    {
        if self.folders.contains_key(name) {
            Err(StateError::FolderExists)
        } else {
            self.folders.insert(name, Folder::new(name));
            Ok(())
        }
    }

    /// Make a session of one tab with one pane; the pane's id.
    pub fn create_session(
        &mut self,
        name: &str,
        folder: Option<&str>,
        border_style: BorderStyle,
        layout_mode: LayoutMode,
        popup_size: (u16, u16),
    ) -> (r: Result<PaneId, StateError>)
        requires
            old(self).named(),
            old(self)@.next_pane < u64::MAX,
            layout_mode.valid(),
        ensures
            r == created(old(self)@, name@, opt_str(folder)),
            final(self)@ == (if r is Ok {
                with_session(
                    old(self)@,
                    name@,
                    opt_str(folder),
                    border_style,
                    layout_mode,
                    popup_size,
                )
            } else {
                old(self)@
            }),
            final(self).named(),
    {
        if self.sessions.contains_key(name) {
            return Err(StateError::SessionExists);
        }
        match folder {
            Some(f) => {
                match self.folders.get_mut(f) {
                    Some(entry) => {
                        entry.file(name);
                    },
                    None => {
                        return Err(StateError::NoFolder);
                    },
                }
            },
            None => {},
        }
        let pane: PaneId = self.next_pane_id();
        let tab = Tab::new(FIRST_TAB, layout_mode, pane);
        self.sessions.insert(name, Session::new(name, folder, border_style, tab, popup_size));
        assert(self@ =~= with_session(
            old(self)@,
            name@,
            opt_str(folder),
            border_style,
            layout_mode,
            popup_size,
        ));
        Ok(pane)
    }
}

/// The name of the first tab of a session.
pub const FIRST_TAB: &'static str = "Tab 1";

/// The outcome of making a session.
pub open spec fn created(
    s: StateView,
    name: Seq<char>,
    folder: Option<Seq<char>>,
) -> Result<PaneId, StateError> {
    if s.sessions.contains_key(name) {
        Err(StateError::SessionExists)
    } else if folder is Some && !s.folders.contains_key(folder->0) {
        Err(StateError::NoFolder)
    } else {
        Ok(s.next_pane)
    }
}

/// The state with a new session of one pane.
pub open spec fn with_session(
    s: StateView,
    name: Seq<char>,
    folder: Option<Seq<char>>,
    style: BorderStyle,
    mode: LayoutMode,
    popup_size: (u16, u16),
) -> StateView {
    StateView {
        sessions: s.sessions.insert(
            name,
            SessionView::fresh(
                name,
                folder,
                style,
                TabView::fresh(FIRST_TAB@, mode, s.next_pane),
                popup_size,
            ),
        ),
        folders: filed(s.folders, folder, name),
        next_pane: (s.next_pane + 1) as u64,
    }
}

/// A session has no more tabs than can be counted.
pub proof fn lemma_tabs_counted(st: ServerState, name: Seq<char>)
    requires
        st.named(),
        st@.sessions.contains_key(name),
    ensures
        st@.sessions[name].tabs.len() <= usize::MAX,
{
    let entries = st.sessions.entries@;
    crate::names::lemma_entries(entries);
    let j = choose|j: int| 0 <= j < entries.len() && (#[trigger] entries[j]).0@ == name;
    assert(entries[j].1.tabs.len() <= usize::MAX);
    assert(entries[j].1@.tabs.len() == entries[j].1.tabs@.len());
}

} // verus!
