//! What clients are told of all sessions, and which clients and panes a change concerns.

use crate::browse::{is_text_before, text_before};
use crate::client::{ClientState, ClientView};
use crate::clients::Clients;
use crate::command::is_client;
use crate::dormant::PersistedState;
use crate::forwarding::holds;
use crate::layout::{active_pane_ids, copy_opt, opt_text, texts, PaneId};
use crate::names::lemma_entries;
use crate::naming::{by_pane, shown_names, tree_pane_names};
use crate::render::{attached, is_attached};
use crate::startup::lists_all;
use crate::state::{opt_str, ServerState, StateView};
use crate::tab::{Tab, TabView};
use crate::text::{chars_of, same_text};
use crate::views::connected;
use std::collections::HashMap;
use vstd::prelude::*;
use vstd::std_specs::iter::IteratorSpec;

verus! {

broadcast use vstd::std_specs::hash::group_hash_axioms;

// ---------------------------------------------------------------------------
// Clients of a session
// ---------------------------------------------------------------------------

/// The ids of those of the first `n` clients that are attached to a session.
pub open spec fn members(c: Seq<(u64, ClientView)>, session: Seq<char>, n: int) -> Seq<u64>
    decreases n,
{
    if n <= 0 {
        Seq::empty()
    } else if attached(c[n - 1].1, session) {
        members(c, session, n - 1).push(c[n - 1].0)
    } else {
        members(c, session, n - 1)
    }
}

impl Clients {
    /// The clients that are attached to a session. What they were sent last no longer
    /// counts once the session has changed its shape.
    pub fn members_of(&self, session: &str) -> (r: Vec<u64>)
        ensures
            r@ == members(self@, session@, self@.len() as int),
    {
        let mut out: Vec<u64> = Vec::new();
        let mut i: usize = 0;
        while i < self.entries.len()
            invariant
                i <= self.entries.len(),
                out@ == members(self@, session@, i as int),
            decreases self.entries.len() - i,
        {
            assert(self@[i as int].1 == self.entries@[i as int].1@);
            if is_attached(&self.entries[i].1, session) {
                out.push(self.entries[i].0);
            }
            i += 1;
        }
        out
    }

    /// The panes that some client watches, each once.
    pub fn watched_panes(&self) -> (r: Vec<PaneId>)
        ensures
            r@.no_duplicates(),
            forall|p: PaneId| #[trigger]
                r@.contains(p) <==> exists|i: int|
                    0 <= i < self@.len() && #[trigger] self@[i].1.subscribed_panes.contains_key(p),
    {
        let mut out: Vec<PaneId> = Vec::new();
        let mut i: usize = 0;
        while i < self.entries.len()
            invariant
                i <= self.entries.len(),
                out@.no_duplicates(),
                forall|p: PaneId| #[trigger]
                    out@.contains(p) <==> exists|k: int|
                        0 <= k < i && #[trigger] self@[k].1.subscribed_panes.contains_key(p),
            decreases self.entries.len() - i,
        {
            let ghost was = out@;
            let ghost own = self.entries@[i as int].1.subscribed_panes@;
            assert(self@[i as int].1.subscribed_panes == own);
            add_watched(&self.entries[i].1, &mut out);
            assert forall|p: PaneId| #[trigger] out@.contains(p) <==> exists|k: int|
                0 <= k < i + 1 && #[trigger] self@[k].1.subscribed_panes.contains_key(p) by {
                if was.contains(p) {
                    let k = choose|k: int|
                        0 <= k < i && #[trigger] self@[k].1.subscribed_panes.contains_key(p);
                    assert(self@[k].1.subscribed_panes.contains_key(p));
                }
                if own.contains_key(p) {
                    assert(self@[i as int].1.subscribed_panes.contains_key(p));
                }
            }
            i += 1;
        }
        out
    }
}

fn add_watched(c: &ClientState, out: &mut Vec<PaneId>)
    requires
        old(out)@.no_duplicates(),
    ensures
        final(out)@.no_duplicates(),
        forall|p: PaneId| #[trigger]
            final(out)@.contains(p) <==> old(out)@.contains(p) || c@.subscribed_panes.contains_key(p),
{
    let ghost base = out@;
    let ghost own = c.subscribed_panes@;
    for entry in it: c.subscribed_panes.iter()
        invariant
            own == c.subscribed_panes@,
            base == old(out)@,
            out@.no_duplicates(),
            forall|p: PaneId| #[trigger] base.contains(p) ==> out@.contains(p),
            forall|p: PaneId| #[trigger]
                out@.contains(p) ==> base.contains(p) || own.contains_key(p),
            forall|i: int| 0 <= i < it.index() ==> out@.contains(*(#[trigger] it.seq()[i]).0),
            it.seq() == vstd::std_specs::hash::spec_hash_map_iter(&c.subscribed_panes).remaining(),
    {
        let (pane, _) = entry;
        assert(own.contains_key(*it.seq()[it.index()].0));
        if !holds(out, *pane) {
            let ghost was = out@;
            out.push(*pane);
            assert forall|p: PaneId| #[trigger] out@.contains(p) == (was.contains(p) || p == *pane) by {
                if was.contains(p) {
                    let k = choose|k: int| 0 <= k < was.len() && was[k] == p;
                    assert(out@[k] == p);
                }
                if p == *pane {
                    assert(out@[was.len() as int] == p);
                }
            }
        }
    }
    assert forall|p: PaneId| own.contains_key(p) implies out@.contains(p) by {
        let v = vstd::std_specs::hash::spec_hash_map_iter(&c.subscribed_panes).remaining();
        assert(v.contains((&p, &own[p])));
        let i = choose|i: int| 0 <= i < v.len() && v[i] == (&p, &own[p]);
        assert(out@.contains(*v[i].0));
    }
}

// ---------------------------------------------------------------------------
// Lists
// ---------------------------------------------------------------------------

/// What a list of sessions says of one of them.
#[derive(Debug)]
pub struct SessionListEntry {
    pub name: String,
    pub folder: Option<String>,
    pub tab_count: usize,
    pub client_count: usize,
}

/// The entry for a session.
pub open spec fn describes_session(
    e: SessionListEntry,
    st: StateView,
    c: Seq<(u64, ClientView)>,
) -> bool {
    &&& st.sessions.contains_key(e.name@)
    &&& opt_text(e.folder) == st.sessions[e.name@].folder
    &&& e.tab_count == st.sessions[e.name@].tabs.len()
    &&& e.client_count == members(c, e.name@, c.len() as int).len()
}

/// The names of the entries.
pub open spec fn entry_names(v: Seq<SessionListEntry>) -> Seq<Seq<char>> {
    Seq::new(v.len(), |i: int| v[i].name@)
}

/// Every session once, with its folder, its number of tabs, and the number of clients that
/// are attached to it.
pub fn handle_list_sessions(st: &ServerState, clients: &Clients) -> (r: Vec<SessionListEntry>)
    requires
        st.named(),
    ensures
        lists_all(entry_names(r@), st@.sessions),
        forall|i: int| 0 <= i < r@.len() ==> describes_session(#[trigger] r@[i], st@, clients@),
{
    let ghost entries = st.sessions.entries@;
    proof {
        lemma_entries(entries);
    }
    let mut out: Vec<SessionListEntry> = Vec::new();
    let mut i: usize = 0;
    while i < st.sessions.entries.len()
        invariant
            i <= st.sessions.entries.len(),
            entries == st.sessions.entries@,
            out.len() == i,
            forall|k: int|
                #![trigger entries[k]]
                0 <= k < entries.len() ==> st@.sessions.contains_key(entries[k].0@)
                    && st@.sessions[entries[k].0@] == entries[k].1@,
            forall|k: int| 0 <= k < i ==> (#[trigger] out@[k]).name@ == entries[k].0@,
            forall|k: int| 0 <= k < i ==> describes_session(#[trigger] out@[k], st@, clients@),
        decreases st.sessions.entries.len() - i,
    {
        let name: String = st.sessions.entries[i].0.clone();
        let members = clients.members_of(&name);
        let s = &st.sessions.entries[i].1;
        assert(st@.sessions[entries[i as int].0@] == s@);
        out.push(
            SessionListEntry {
                name,
                folder: copy_opt(&s.folder),
                tab_count: s.tabs.len(),
                client_count: members.len(),
            },
        );
        i += 1;
    }
    proof {
        lemma_entries(entries);
        let t = entry_names(out@);
        assert forall|a: int, b: int| 0 <= a < b < t.len() implies t[a] != t[b] by {
            assert(out@[a].name@ == entries[a].0@);
            assert(out@[b].name@ == entries[b].0@);
            assert(entries[a].0@ != entries[b].0@);
        }
        assert forall|k: Seq<char>| #[trigger] t.contains(k) <==> st@.sessions.contains_key(k) by {
            if t.contains(k) {
                let a = choose|a: int| 0 <= a < t.len() && t[a] == k;
                assert(out@[a].name@ == entries[a].0@);
            }
            if st@.sessions.contains_key(k) {
                let a = choose|a: int| 0 <= a < entries.len() && (#[trigger] entries[a]).0@ == k;
                assert(out@[a].name@ == k);
                assert(t[a] == k);
            }
        }
    }
    out
}

/// No name is before one that is listed above it.
pub open spec fn alphabetical(names: Seq<Seq<char>>) -> bool {
    forall|i: int, j: int|
        0 <= i < j < names.len() ==> !text_before(#[trigger] names[j], #[trigger] names[i])
}

fn place_for(names: &Vec<String>, name: &str) -> (r: usize)
    requires
        alphabetical(texts(names@)),
    ensures
        r <= names.len(),
        forall|k: int| r <= k < names.len() ==> text_before(name@, #[trigger] texts(names@)[k]),
        forall|k: int| 0 <= k < r ==> !text_before(name@, #[trigger] texts(names@)[k]),
{
    let key = chars_of(name);
    let mut r: usize = names.len();
    while r > 0
        invariant
            r <= names.len(),
            key@ == name@,
            alphabetical(texts(names@)),
            forall|k: int|
                r <= k < names.len() ==> text_before(name@, #[trigger] texts(names@)[k]),
        decreases r,
    {
        let other = chars_of(&names[r - 1]);
        assert(texts(names@)[r - 1] == other@);
        if !is_text_before(&key, &other) {
            assert forall|k: int| 0 <= k < r implies !text_before(
                name@,
                #[trigger] texts(names@)[k],
            ) by {
                let a = texts(names@)[k];
                crate::browse::law_texts_have_an_order(name@, a, other@);
                crate::browse::law_texts_have_an_order(a, other@, name@);
                if k < r - 1 {
                    assert(!text_before(other@, a));
                }
            }
            return r;
        }
        r -= 1;
    }
    r
}

/// The names of the sessions that wait to be brought back, in order.
pub fn dormant_names(dormant: &PersistedState) -> (r: Vec<String>)
    requires
        dormant.state.named(),
    ensures
        lists_all(texts(r@), dormant@.state.sessions),
        alphabetical(texts(r@)),
{
    let ghost entries = dormant.state.sessions.entries@;
    let mut names: Vec<String> = Vec::new();
    let mut i: usize = 0;
    assert(texts(names@) =~= Seq::empty());
    while i < dormant.state.sessions.entries.len()
        invariant
            i <= dormant.state.sessions.entries.len(),
            entries == dormant.state.sessions.entries@,
            crate::names::names_distinct(entries),
            alphabetical(texts(names@)),
            texts(names@).no_duplicates(),
            forall|k: Seq<char>| #[trigger]
                texts(names@).contains(k) <==> exists|a: int|
                    0 <= a < i && (#[trigger] entries[a]).0@ == k,
        decreases dormant.state.sessions.entries.len() - i,
    {
        let name: String = dormant.state.sessions.entries[i].0.clone();
        let at: usize = place_for(&names, &name);
        let ghost was = texts(names@);
        names.insert(at, name);
        assert(texts(names@) =~= was.insert(at as int, name@));
        proof {
            lemma_placed(was, at as int, name@);
            assert forall|k: Seq<char>| #[trigger] texts(names@).contains(k) <==> exists|a: int|
                0 <= a < i + 1 && (#[trigger] entries[a]).0@ == k by {
                if was.contains(k) {
                    let a = choose|a: int| 0 <= a < i && (#[trigger] entries[a]).0@ == k;
                    assert(entries[a].0@ == k);
                }
                if k == name@ {
                    assert(entries[i as int].0@ == k);
                }
                if exists|a: int| 0 <= a < i + 1 && (#[trigger] entries[a]).0@ == k {
                    let a = choose|a: int| 0 <= a < i + 1 && (#[trigger] entries[a]).0@ == k;
                    if a < i {
                        assert(was.contains(k));
                    }
                }
            }
        }
        i += 1;
    }
    proof {
        lemma_entries(entries);
        assert forall|k: Seq<char>| #[trigger] texts(names@).contains(k)
            <==> dormant@.state.sessions.contains_key(k) by {
            if dormant@.state.sessions.contains_key(k) {
                let a = choose|a: int| 0 <= a < entries.len() && (#[trigger] entries[a]).0@ == k;
                assert(entries[a].0@ == k);
            }
        }
    }
    names
}

proof fn lemma_placed(was: Seq<Seq<char>>, at: int, name: Seq<char>)
    requires
        alphabetical(was),
        was.no_duplicates(),
        0 <= at <= was.len(),
        forall|k: int| at <= k < was.len() ==> text_before(name, #[trigger] was[k]),
        forall|k: int| 0 <= k < at ==> !text_before(name, #[trigger] was[k]),
    ensures
        alphabetical(was.insert(at, name)),
        !was.contains(name) ==> was.insert(at, name).no_duplicates(),
        forall|k: Seq<char>| #[trigger]
            was.insert(at, name).contains(k) <==> was.contains(k) || k == name,
{
    let all = was.insert(at, name);
    assert forall|i: int, j: int| 0 <= i < j < all.len() implies !text_before(
        #[trigger] all[j],
        #[trigger] all[i],
    ) by {
        if i == at {
            crate::browse::law_texts_have_an_order(name, was[j - 1], name);
            assert(text_before(name, was[j - 1]));
        } else if j == at {
            assert(!text_before(name, was[i]));
        } else {
            let a = if i < at {
                i
            } else {
                i - 1
            };
            let b = if j < at {
                j
            } else {
                j - 1
            };
            assert(!text_before(was[b], was[a]));
        }
    }
    assert forall|k: Seq<char>| #[trigger] all.contains(k) <==> was.contains(k) || k == name by {
        if was.contains(k) {
            let i = choose|i: int| 0 <= i < was.len() && was[i] == k;
            if i < at {
                assert(all[i] == k);
            } else {
                assert(all[i + 1] == k);
            }
        }
        if k == name {
            assert(all[at] == k);
        }
        if all.contains(k) {
            let i = choose|i: int| 0 <= i < all.len() && all[i] == k;
            if i < at {
                assert(was[i] == k);
            } else if i > at {
                assert(was[i - 1] == k);
            }
        }
    }
}

// ---------------------------------------------------------------------------
// The tree
// ---------------------------------------------------------------------------

/// A pane in the tree.
#[derive(Debug)]
pub struct TreePane {
    pub id: PaneId,
    pub name: String,
    /// It is the pane of its tab that has the focus.
    pub is_focused: bool,
    /// It is the pane of its stack that is seen.
    pub is_active: bool,
}

/// A tab in the tree.
#[derive(Debug)]
pub struct TreeTab {
    pub name: String,
    pub panes: Vec<TreePane>,
}

/// A session in the tree.
#[derive(Debug)]
pub struct TreeSession {
    pub name: String,
    /// The client that the tree is for is attached to it.
    pub is_current: bool,
    pub client_count: usize,
    pub tabs: Vec<TreeTab>,
}

/// A folder in the tree.
#[derive(Debug)]
pub struct TreeFolder {
    pub name: String,
    pub sessions: Vec<TreeSession>,
}

/// All sessions, as one client sees them.
#[derive(Debug)]
pub struct SessionTree {
    pub folders: Vec<TreeFolder>,
    pub unfiled: Vec<TreeSession>,
    /// The names of the sessions that wait to be brought back.
    pub dormant: Vec<String>,
}

/// The name of a pane in the tree; nothing where none is known.
pub open spec fn name_in(names: Map<PaneId, Seq<char>>, pane: PaneId) -> Seq<char> {
    if names.contains_key(pane) {
        names[pane]
    } else {
        Seq::empty()
    }
}

/// The entry shows a tab: its name, and its panes in order, each with its name, whether it
/// has the tab's focus, and whether it is the one that is seen of its stack.
pub open spec fn shows_tab(e: TreeTab, t: TabView, names: Map<PaneId, Seq<char>>) -> bool {
    &&& e.name@ == t.name
    &&& e.panes@.len() == t.order.len()
    &&& forall|j: int|
        0 <= j < t.order.len() ==> shows_pane(#[trigger] e.panes@[j], t.order[j], t, names)
}

/// The entry shows a pane of a tab.
pub open spec fn shows_pane(
    e: TreePane,
    id: PaneId,
    t: TabView,
    names: Map<PaneId, Seq<char>>,
) -> bool {
    &&& e.id == id
    &&& e.name@ == name_in(names, id)
    &&& e.is_focused == (id == t.focused)
    &&& e.is_active == t.layout.visible().contains(id)
}

/// The entry shows a session to the client `v`.
pub open spec fn shows_session(
    e: TreeSession,
    st: StateView,
    c: Seq<(u64, ClientView)>,
    v: ClientView,
    names: Map<PaneId, Seq<char>>,
) -> bool {
    &&& st.sessions.contains_key(e.name@)
    &&& e.is_current == attached(v, e.name@)
    &&& e.client_count == members(c, e.name@, c.len() as int).len()
    &&& e.tabs@.len() == st.sessions[e.name@].tabs.len()
    &&& forall|i: int|
        0 <= i < e.tabs@.len() ==> shows_tab(
            #[trigger] e.tabs@[i],
            st.sessions[e.name@].tabs[i],
            names,
        )
}

/// A session is filed under a folder, or under none that there is.
pub open spec fn filed_under(st: StateView, session: Seq<char>, folder: Option<Seq<char>>) -> bool {
    let own = st.sessions[session].folder;
    match folder {
        Some(f) => own == Some(f),
        None => match own {
            Some(f) => !st.folders.contains_key(f),
            None => true,
        },
    }
}

/// The names of the sessions of a list.
pub open spec fn session_names(v: Seq<TreeSession>) -> Seq<Seq<char>> {
    Seq::new(v.len(), |i: int| v[i].name@)
}

/// The list shows the sessions of a folder, each once, or those without one.
pub open spec fn shows_folder(
    v: Seq<TreeSession>,
    folder: Option<Seq<char>>,
    st: StateView,
    c: Seq<(u64, ClientView)>,
    who: ClientView,
    names: Map<PaneId, Seq<char>>,
) -> bool {
    &&& session_names(v).no_duplicates()
    &&& forall|k: Seq<char>| #[trigger]
        session_names(v).contains(k) <==> st.sessions.contains_key(k) && filed_under(st, k, folder)
    &&& forall|i: int| 0 <= i < v.len() ==> shows_session(#[trigger] v[i], st, c, who, names)
}

/// The names of the folders of a list.
pub open spec fn folder_names(v: Seq<TreeFolder>) -> Seq<Seq<char>> {
    Seq::new(v.len(), |i: int| v[i].name@)
}

/// The tree shows every folder with its sessions, and the sessions without a folder.
pub open spec fn shows_all(
    folders: Seq<TreeFolder>,
    unfiled: Seq<TreeSession>,
    st: StateView,
    c: Seq<(u64, ClientView)>,
    who: ClientView,
    names: Map<PaneId, Seq<char>>,
) -> bool {
    &&& lists_all(folder_names(folders), st.folders)
    &&& forall|i: int|
        0 <= i < folders.len() ==> shows_folder(
            (#[trigger] folders[i]).sessions@,
            Some(folders[i].name@),
            st,
            c,
            who,
            names,
        )
    &&& shows_folder(unfiled, None, st, c, who, names)
}

fn tree_tab(t: &Tab, names: &HashMap<PaneId, String>) -> (r: TreeTab)
    ensures
        shows_tab(r, t@, by_pane(names@)),
{
    let seen: Vec<PaneId> = active_pane_ids(&t.layout);
    let mut panes: Vec<TreePane> = Vec::new();
    let mut j: usize = 0;
    while j < t.pane_order.len()
        invariant
            j <= t.pane_order.len(),
            panes.len() == j,
            forall|k: int|
                0 <= k < j ==> shows_pane(
                    #[trigger] panes@[k],
                    t.pane_order@[k],
                    t@,
                    by_pane(names@),
                ),
            seen@ == t@.layout.visible(),
        decreases t.pane_order.len() - j,
    {
        let id: PaneId = t.pane_order[j];
        let name: String = match names.get(&id) {
            Some(n) => n.clone(),
            None => {
                let none: String = String::new();
                assert(none@ =~= Seq::empty());
                none
            },
        };
        let is_active = holds(&seen, id);
        panes.push(TreePane { id, name, is_focused: id == t.focused_pane, is_active });
        j += 1;
    }
    TreeTab { name: t.name.clone(), panes }
}

fn tree_tabs(tabs: &Vec<Tab>, names: &HashMap<PaneId, String>) -> (r: Vec<TreeTab>)
    ensures
        r@.len() == tabs@.len(),
        forall|i: int| 0 <= i < r@.len() ==> shows_tab(#[trigger] r@[i], tabs@[i]@, by_pane(names@)),
{
    let mut out: Vec<TreeTab> = Vec::new();
    let mut i: usize = 0;
    while i < tabs.len()
        invariant
            i <= tabs.len(),
            out.len() == i,
            forall|k: int|
                0 <= k < i ==> shows_tab(#[trigger] out@[k], tabs@[k]@, by_pane(names@)),
        decreases tabs.len() - i,
    {
        out.push(tree_tab(&tabs[i], names));
        i += 1;
    }
    out
}

fn is_filed_under(st: &ServerState, own: &Option<String>, folder: Option<&str>) -> (r: bool)
    ensures
        r == (match opt_str(folder) {
            Some(f) => opt_text(*own) == Some(f),
            None => match opt_text(*own) {
                Some(f) => !st@.folders.contains_key(f),
                None => true,
            },
        }),
{
    match (own, folder) {
        (Some(o), Some(f)) => same_text(o, f),
        (None, Some(_)) => false,
        (Some(o), None) => !st.folders.contains_key(o),
        (None, None) => true,
    }
}

fn tree_sessions(
    st: &ServerState,
    clients: &Clients,
    who: &ClientState,
    names: &HashMap<PaneId, String>,
    folder: Option<&str>,
) -> (r: Vec<TreeSession>)
    requires
        st.named(),
    ensures
        shows_folder(r@, opt_str(folder), st@, clients@, who@, by_pane(names@)),
{
    let ghost entries = st.sessions.entries@;
    let ghost under = opt_str(folder);
    proof {
        lemma_entries(entries);
    }
    let mut out: Vec<TreeSession> = Vec::new();
    let mut i: usize = 0;
    assert(session_names(out@) =~= Seq::empty());
    while i < st.sessions.entries.len()
        invariant
            i <= st.sessions.entries.len(),
            entries == st.sessions.entries@,
            under == opt_str(folder),
            crate::names::names_distinct(entries),
            forall|k: int|
                #![trigger entries[k]]
                0 <= k < entries.len() ==> st@.sessions.contains_key(entries[k].0@)
                    && st@.sessions[entries[k].0@] == entries[k].1@,
            session_names(out@).no_duplicates(),
            forall|k: Seq<char>| #[trigger]
                session_names(out@).contains(k) <==> exists|a: int|
                    0 <= a < i && (#[trigger] entries[a]).0@ == k && filed_under(st@, k, under),
            forall|k: int|
                0 <= k < out@.len() ==> shows_session(
                    #[trigger] out@[k],
                    st@,
                    clients@,
                    who@,
                    by_pane(names@),
                ),
        decreases st.sessions.entries.len() - i,
    {
        let s = &st.sessions.entries[i].1;
        let ghost own = entries[i as int].0@;
        assert(st@.sessions[own] == s@);
        let ghost was = session_names(out@);
        assert(!was.contains(own)) by {
            if was.contains(own) {
                let a = choose|a: int|
                    0 <= a < i && (#[trigger] entries[a]).0@ == own && filed_under(st@, own, under);
                assert(entries[a].0@ != entries[i as int].0@);
            }
        }
        let filed = is_filed_under(st, &s.folder, folder);
        assert(filed == filed_under(st@, own, under));
        if filed {
            let name: String = st.sessions.entries[i].0.clone();
            let is_current = is_attached(who, &name);
            let client_count: usize = clients.members_of(&name).len();
            let tabs = tree_tabs(&s.tabs, names);
            out.push(TreeSession { name, is_current, client_count, tabs });
            assert(session_names(out@) =~= was.push(own));
        }
        proof {
            assert forall|k: Seq<char>| #[trigger] session_names(out@).contains(k) <==> exists|a: int|
                0 <= a < i + 1 && (#[trigger] entries[a]).0@ == k && filed_under(st@, k, under) by {
                if filed {
                    lemma_pushed(was, own, k);
                }
                if was.contains(k) {
                    let a = choose|a: int|
                        0 <= a < i && (#[trigger] entries[a]).0@ == k && filed_under(st@, k, under);
                    assert(entries[a].0@ == k);
                }
                if k == own && filed {
                    assert(entries[i as int].0@ == k);
                }
                if exists|a: int|
                    0 <= a < i + 1 && (#[trigger] entries[a]).0@ == k && filed_under(st@, k, under) {
                    let a = choose|a: int|
                        0 <= a < i + 1 && (#[trigger] entries[a]).0@ == k && filed_under(
                            st@,
                            k,
                            under,
                        );
                    if a < i {
                        assert(was.contains(k));
                    }
                }
            }
        }
        i += 1;
    }
    proof {
        lemma_entries(entries);
        assert forall|k: Seq<char>| #[trigger] session_names(out@).contains(k)
            <==> st@.sessions.contains_key(k) && filed_under(st@, k, under) by {
            if st@.sessions.contains_key(k) && filed_under(st@, k, under) {
                let a = choose|a: int| 0 <= a < entries.len() && (#[trigger] entries[a]).0@ == k;
                assert(entries[a].0@ == k);
            }
        }
    }
    out
}

proof fn lemma_pushed(was: Seq<Seq<char>>, x: Seq<char>, k: Seq<char>)
    ensures
        was.push(x).contains(k) <==> was.contains(k) || k == x,
{
    let all = was.push(x);
    if was.contains(k) {
        let i = choose|i: int| 0 <= i < was.len() && was[i] == k;
        assert(all[i] == k);
    }
    if k == x {
        assert(all[was.len() as int] == k);
    }
    if all.contains(k) {
        let i = choose|i: int| 0 <= i < all.len() && all[i] == k;
        if i < was.len() {
            assert(was[i] == k);
        }
    }
}

/// All folders with their sessions, and the sessions without a folder, as the client `who`
/// sees them. `names` holds the names of panes.
pub fn build_session_tree(
    st: &ServerState,
    clients: &Clients,
    who: &ClientState,
    names: &HashMap<PaneId, String>,
) -> (r: (Vec<TreeFolder>, Vec<TreeSession>))
    requires
        st.named(),
    ensures
        shows_all(r.0@, r.1@, st@, clients@, who@, by_pane(names@)),
{
    let ghost entries = st.folders.entries@;
    let mut out: Vec<TreeFolder> = Vec::new();
    let mut i: usize = 0;
    while i < st.folders.entries.len()
        invariant
            i <= st.folders.entries.len(),
            st.named(),
            entries == st.folders.entries@,
            out.len() == i,
            forall|k: int|
                0 <= k < i ==> (#[trigger] out@[k]).name@ == entries[k].0@ && shows_folder(
                    out@[k].sessions@,
                    Some(out@[k].name@),
                    st@,
                    clients@,
                    who@,
                    by_pane(names@),
                ),
        decreases st.folders.entries.len() - i,
    {
        let name: String = st.folders.entries[i].0.clone();
        let sessions = tree_sessions(st, clients, who, names, Some(name.as_str()));
        out.push(TreeFolder { name, sessions });
        i += 1;
    }
    let unfiled = tree_sessions(st, clients, who, names, None);
    proof {
        lemma_entries(entries);
        let t = folder_names(out@);
        assert forall|a: int, b: int| 0 <= a < b < t.len() implies t[a] != t[b] by {
            assert(out@[a].name@ == entries[a].0@);
            assert(out@[b].name@ == entries[b].0@);
            assert(entries[a].0@ != entries[b].0@);
        }
        assert forall|k: Seq<char>| #[trigger] t.contains(k) <==> st@.folders.contains_key(k) by {
            if t.contains(k) {
                let a = choose|a: int| 0 <= a < t.len() && t[a] == k;
                assert(out@[a].name@ == entries[a].0@);
            }
            if st@.folders.contains_key(k) {
                let a = choose|a: int| 0 <= a < entries.len() && (#[trigger] entries[a]).0@ == k;
                assert(out@[a].name@ == k);
                assert(t[a] == k);
            }
        }
    }
    (out, unfiled)
}

/// Those of the first `n` targets that are connected.
pub open spec fn reached(targets: Seq<u64>, c: Seq<(u64, ClientView)>, n: int) -> Seq<u64>
    decreases n,
{
    if n <= 0 {
        Seq::empty()
    } else if connected(c, targets[n - 1]) {
        reached(targets, c, n - 1).push(targets[n - 1])
    } else {
        reached(targets, c, n - 1)
    }
}

/// The tree is the one for the client with an id.
pub open spec fn is_tree_for(
    sent: (u64, SessionTree),
    st: StateView,
    c: Seq<(u64, ClientView)>,
    names: Map<PaneId, Seq<char>>,
    dormant: StateView,
) -> bool {
    &&& exists|me: int| #[trigger]
        is_client(c, sent.0, me) && shows_all(
            sent.1.folders@,
            sent.1.unfiled@,
            st,
            c,
            c[me].1,
            names,
        )
    &&& lists_all(texts(sent.1.dormant@), dormant.sessions)
    &&& alphabetical(texts(sent.1.dormant@))
}

/// The receivers of a list.
pub open spec fn receivers(v: Seq<(u64, SessionTree)>) -> Seq<u64> {
    Seq::new(v.len(), |i: int| v[i].0)
}

/// The session tree for each of some clients; those that are not connected are left out.
/// `found` holds the names of the programs in the panes. Names that users gave go first.
pub fn send_session_tree_to(
    targets: &Vec<u64>,
    st: &ServerState,
    clients: &Clients,
    found: HashMap<PaneId, String>,
    dormant: &PersistedState,
) -> (r: Vec<(u64, SessionTree)>)
    requires
        st.named(),
        dormant.state.named(),
    ensures
        receivers(r@) == reached(targets@, clients@, targets@.len() as int),
        exists|names: Map<PaneId, Seq<char>>| #[trigger]
            shown_names(st@, by_pane(found@), names) && forall|i: int|
                0 <= i < r@.len() ==> is_tree_for(
                    #[trigger] r@[i],
                    st@,
                    clients@,
                    names,
                    dormant@.state,
                ),
{
    let ghost programs = by_pane(found@);
    let names = tree_pane_names(st, found);
    let ghost shown = by_pane(names@);
    let mut out: Vec<(u64, SessionTree)> = Vec::new();
    let mut i: usize = 0;
    assert(receivers(out@) =~= Seq::empty());
    while i < targets.len()
        invariant
            i <= targets.len(),
            st.named(),
            dormant.state.named(),
            shown == by_pane(names@),
            receivers(out@) == reached(targets@, clients@, i as int),
            forall|k: int|
                0 <= k < out@.len() ==> is_tree_for(
                    #[trigger] out@[k],
                    st@,
                    clients@,
                    shown,
                    dormant@.state,
                ),
        decreases targets.len() - i,
    {
        let id: u64 = targets[i];
        match clients.find(id) {
            Some(me) => {
                assert(clients@[me as int].0 == id && connected(clients@, id));
                assert(clients@[me as int].1 == clients.entries@[me as int].1@);
                let (folders, unfiled) = build_session_tree(
                    st,
                    clients,
                    &clients.entries[me].1,
                    &names,
                );
                let ghost was = out@;
                let tree = SessionTree { folders, unfiled, dormant: dormant_names(dormant) };
                let sent = (id, tree);
                assert(shows_all(
                    sent.1.folders@,
                    sent.1.unfiled@,
                    st@,
                    clients@,
                    clients@[me as int].1,
                    shown,
                ));
                assert(is_client(clients@, sent.0, me as int));
                assert(is_tree_for(sent, st@, clients@, shown, dormant@.state));
                out.push(sent);
                assert(receivers(out@) =~= receivers(was).push(id));
                assert forall|k: int| 0 <= k < out@.len() implies is_tree_for(
                    #[trigger] out@[k],
                    st@,
                    clients@,
                    shown,
                    dormant@.state,
                ) by {
                    if k < was.len() {
                        assert(out@[k] == was[k]);
                    }
                }
            },
            None => {},
        }
        i += 1;
    }
    assert(shown_names(st@, programs, shown));
    out
}

// ---------------------------------------------------------------------------
// Laws
// ---------------------------------------------------------------------------

/// No session is lost from the tree, and none is in it twice: it is in its folder's list,
/// or among those without one, and nowhere else.
pub proof fn law_every_session_is_in_the_tree_once(
    folders: Seq<TreeFolder>,
    unfiled: Seq<TreeSession>,
    st: StateView,
    c: Seq<(u64, ClientView)>,
    who: ClientView,
    names: Map<PaneId, Seq<char>>,
    session: Seq<char>,
)
    requires
        shows_all(folders, unfiled, st, c, who, names),
        st.sessions.contains_key(session),
    ensures
        session_names(unfiled).contains(session) || exists|i: int|
            0 <= i < folders.len() && session_names((#[trigger] folders[i]).sessions@).contains(
                session,
            ),
        forall|i: int|
            0 <= i < folders.len() && session_names((#[trigger] folders[i]).sessions@).contains(
                session,
            ) ==> !session_names(unfiled).contains(session),
        forall|i: int, j: int|
            0 <= i < folders.len() && 0 <= j < folders.len() && session_names(
                (#[trigger] folders[i]).sessions@,
            ).contains(session) && session_names((#[trigger] folders[j]).sessions@).contains(session)
                ==> i == j,
{
    let own = st.sessions[session].folder;
    let t = folder_names(folders);
    assert forall|i: int| 0 <= i < folders.len() implies (session_names(
        (#[trigger] folders[i]).sessions@,
    ).contains(session) ==> own == Some(folders[i].name@) && st.folders.contains_key(
        folders[i].name@,
    )) by {
        assert(t[i] == folders[i].name@);
        assert(t.contains(folders[i].name@));
    }
    assert forall|i: int, j: int|
        0 <= i < folders.len() && 0 <= j < folders.len() && session_names(
            (#[trigger] folders[i]).sessions@,
        ).contains(session) && session_names((#[trigger] folders[j]).sessions@).contains(
            session,
        ) implies i == j by {
        assert(t[i] == t[j]);
    }
    if own is Some && st.folders.contains_key(own->0) {
        assert(t.contains(own->0));
        let i = choose|i: int| 0 <= i < t.len() && t[i] == own->0;
        assert(session_names(folders[i].sessions@).contains(session));
    } else {
        assert(filed_under(st, session, None));
    }
}

/// A client is counted for at most one session: the one that it is attached to.
pub proof fn law_a_client_is_counted_once(
    c: Seq<(u64, ClientView)>,
    a: Seq<char>,
    b: Seq<char>,
    n: int,
)
    requires
        0 <= n <= c.len(),
        a != b,
    ensures
        members(c, a, n).len() + members(c, b, n).len() <= n,
    decreases n,
{
    if n > 0 {
        law_a_client_is_counted_once(c, a, b, n - 1);
    }
}

/// A session that is gone has no clients left to redraw.
pub proof fn law_only_attached_clients_are_members(
    c: Seq<(u64, ClientView)>,
    session: Seq<char>,
    n: int,
)
    requires
        0 <= n <= c.len(),
        !crate::clients::watched(c, session),
    ensures
        members(c, session, n).len() == 0,
    decreases n,
{
    if n > 0 {
        law_only_attached_clients_are_members(c, session, n - 1);
        assert(!attached(c[n - 1].1, session));
    }
}

} // verus!
