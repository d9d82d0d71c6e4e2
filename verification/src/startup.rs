//! Saving the sessions, and what becomes of saved ones when the server starts.

use crate::clients::{DEFAULT_COLS, DEFAULT_ROWS};
use crate::dormant::{
    dirs, joined, merge_dormant_into, nothing_dormant, take_dormant_session, PersistedState,
    PersistedView,
};
use crate::layout::{opt_text, texts, PaneId};
use crate::names::{lemma_entries, named_values, names_distinct, NameMap};
use crate::session::{panes_of, Session, SessionView};
use crate::state::{occurs, Folder, ServerState, StateView};
use crate::tab::TabView;
use std::collections::HashMap;
use vstd::prelude::*;

verus! {

broadcast use vstd::std_specs::hash::group_hash_axioms;

// ---------------------------------------------------------------------------
// Saving
// ---------------------------------------------------------------------------

proof fn lemma_copied<T: View>(from: Seq<(String, T)>, to: Seq<(String, T)>)
    requires
        names_distinct(from),
        to.len() == from.len(),
        forall|k: int| 0 <= k < from.len() ==> (#[trigger] to[k]).0@ == from[k].0@,
        forall|k: int| 0 <= k < from.len() ==> (#[trigger] to[k]).1@ == from[k].1@,
    ensures
        names_distinct(to),
        named_values(to) == named_values(from),
{
    assert(names_distinct(to)) by {
        assert forall|i: int, j: int|
            0 <= i < to.len() && 0 <= j < to.len() && i != j implies #[trigger] to[i].0@
            != #[trigger] to[j].0@ by {
            assert(to[i].0@ == from[i].0@);
            assert(to[j].0@ == from[j].0@);
        }
    }
    lemma_entries(from);
    lemma_entries(to);
    let a = named_values(from);
    let b = named_values(to);
    assert forall|k: Seq<char>| #[trigger] a.contains_key(k) == b.contains_key(k) && (
    a.contains_key(k) ==> a[k] == b[k]) by {
        if a.contains_key(k) {
            let i = choose|i: int| 0 <= i < from.len() && (#[trigger] from[i]).0@ == k;
            assert(to[i].0@ == k);
        }
        if b.contains_key(k) {
            let i = choose|i: int| 0 <= i < to.len() && (#[trigger] to[i]).0@ == k;
            assert(from[i].0@ == k);
        }
    }
    assert(b =~= a);
}

fn copy_sessions(m: &NameMap<Session>) -> (r: NameMap<Session>)
    requires
        m.wf(),
    ensures
        r.wf(),
        r@ == m@,
{
    let mut entries: Vec<(String, Session)> = Vec::new();
    let mut i: usize = 0;
    while i < m.entries.len()
        invariant
            i <= m.entries.len(),
            entries.len() == i,
            forall|k: int| 0 <= k < i ==> (#[trigger] entries@[k]).0@ == m.entries@[k].0@,
            forall|k: int| 0 <= k < i ==> (#[trigger] entries@[k]).1@ == m.entries@[k].1@,
        decreases m.entries.len() - i,
    {
        entries.push((m.entries[i].0.clone(), m.entries[i].1.duplicate()));
        i += 1;
    }
    proof {
        lemma_copied(m.entries@, entries@);
    }
    NameMap { entries }
}

fn copy_folders(m: &NameMap<Folder>) -> (r: NameMap<Folder>)
    requires
        m.wf(),
    ensures
        r.wf(),
        r@ == m@,
{
    let mut entries: Vec<(String, Folder)> = Vec::new();
    let mut i: usize = 0;
    while i < m.entries.len()
        invariant
            i <= m.entries.len(),
            entries.len() == i,
            forall|k: int| 0 <= k < i ==> (#[trigger] entries@[k]).0@ == m.entries@[k].0@,
            forall|k: int| 0 <= k < i ==> (#[trigger] entries@[k]).1@ == m.entries@[k].1@,
        decreases m.entries.len() - i,
    {
        entries.push((m.entries[i].0.clone(), m.entries[i].1.duplicate()));
        i += 1;
    }
    proof {
        lemma_copied(m.entries@, entries@);
    }
    NameMap { entries }
}

/// A copy of a state.
pub fn clone_server_state(st: &ServerState) -> (r: ServerState)
    requires
        st.named(),
    ensures
        r.named(),
        r@ == st@,
{
    let r = ServerState {
        sessions: copy_sessions(&st.sessions),
        folders: copy_folders(&st.folders),
        next_pane: st.next_pane,
    };
    assert(r@ =~= st@);
    r
}

/// What is saved of the live sessions, the directories of their panes, and the dormant
/// sessions.
pub open spec fn is_saved(
    p: PersistedView,
    st: StateView,
    cwds: Map<PaneId, Seq<char>>,
    dormant: PersistedView,
) -> bool {
    let live = PersistedView { state: st, pane_cwds: cwds };
    if nothing_dormant(dormant) {
        p == live
    } else {
        let all = joined(live, dormant);
        &&& p == (PersistedView {
            state: StateView { next_pane: p.state.next_pane, ..all.state },
            ..all
        })
        &&& all.state.least_free(st.next_pane, p.state.next_pane)
    }
}

/// What to save, if sessions are saved at all: the live sessions with the directories of
/// their panes, and the dormant ones.
pub fn save_if_enabled(
    save_sessions: bool,
    st: &ServerState,
    cwds: HashMap<PaneId, String>,
    dormant: &PersistedState,
) -> (r: Option<PersistedState>)
    requires
        st.named(),
        dormant.state.named(),
    ensures
        r is Some == save_sessions,
        r matches Some(p) ==> p.state.named() && is_saved(p@, st@, dirs(cwds@), dormant@),
{
    if !save_sessions {
        return None;
    }
    let mut p = PersistedState { state: clone_server_state(st), pane_cwds: cwds };
    assert(p@ == (PersistedView { state: st@, pane_cwds: dirs(cwds@) }));
    merge_dormant_into(&mut p, dormant);
    Some(p)
}

// ---------------------------------------------------------------------------
// Starting
// ---------------------------------------------------------------------------

/// A state in which every tab's list of panes agrees with its arrangement, but for the next
/// pane id.
pub open spec fn repaired(st: StateView) -> StateView {
    StateView {
        sessions: Map::new(
            |k: Seq<char>| st.sessions.contains_key(k),
            |k: Seq<char>| st.sessions[k].reconciled(),
        ),
        ..st
    }
}

/// Every name of the map is on the list, once, and nothing else is.
pub open spec fn lists_all<V>(names: Seq<Seq<char>>, m: Map<Seq<char>, V>) -> bool {
    &&& names.no_duplicates()
    &&& forall|k: Seq<char>| #[trigger] names.contains(k) <==> m.contains_key(k)
}

/// What the server starts with.
#[derive(Debug)]
pub struct Started {
    pub state: ServerState,
    /// The sessions that wait to be brought back.
    pub dormant: PersistedState,
    /// The sessions whose panes get terminals at once.
    pub materialize: Vec<String>,
    /// The directories for those terminals.
    pub cwds: HashMap<PaneId, String>,
}

/// No sessions at all.
pub open spec fn empty_state() -> StateView {
    StateView { sessions: Map::empty(), folders: Map::empty(), next_pane: 0 }
}

impl Started {
    /// Without saved sessions.
    pub open spec fn is_fresh(self) -> bool {
        &&& self.state@ == empty_state()
        &&& self.dormant@ == (PersistedView { state: empty_state(), pane_cwds: Map::empty() })
        &&& self.materialize@.len() == 0
        &&& dirs(self.cwds@) == Map::<PaneId, Seq<char>>::empty()
    }

    /// With all saved sessions live.
    pub open spec fn is_restored(self, saved: PersistedView) -> bool {
        &&& self.state@ == (StateView {
            next_pane: self.state@.next_pane,
            ..repaired(saved.state)
        })
        &&& saved.state.least_free(saved.state.next_pane, self.state@.next_pane)
        &&& self.dormant@ == (PersistedView { state: empty_state(), pane_cwds: Map::empty() })
        &&& lists_all(texts(self.materialize@), saved.state.sessions)
        &&& dirs(self.cwds@) == saved.pane_cwds
    }

    /// With all saved sessions dormant. Ids that they use are not given out.
    pub open spec fn is_waiting(self, saved: PersistedView) -> bool {
        &&& self.state@ == (StateView { next_pane: saved.state.next_pane, ..empty_state() })
        &&& self.dormant@ == saved
        &&& self.materialize@.len() == 0
        &&& dirs(self.cwds@) == Map::<PaneId, Seq<char>>::empty()
    }
}

fn session_names(st: &ServerState) -> (r: Vec<String>)
    requires
        st.named(),
    ensures
        lists_all(texts(r@), st@.sessions),
{
    let ghost entries = st.sessions.entries@;
    let mut names: Vec<String> = Vec::new();
    let mut i: usize = 0;
    while i < st.sessions.entries.len()
        invariant
            i <= st.sessions.entries.len(),
            entries == st.sessions.entries@,
            names.len() == i,
            forall|k: int| 0 <= k < i ==> (#[trigger] names@[k])@ == entries[k].0@,
        decreases st.sessions.entries.len() - i,
    {
        names.push(st.sessions.entries[i].0.clone());
        i += 1;
    }
    proof {
        lemma_entries(entries);
        let t = texts(names@);
        assert forall|a: int, b: int| 0 <= a < b < t.len() implies t[a] != t[b] by {
            assert(names@[a]@ == entries[a].0@);
            assert(names@[b]@ == entries[b].0@);
            assert(entries[a].0@ != entries[b].0@);
        }
        assert forall|k: Seq<char>| #[trigger] t.contains(k) <==> st@.sessions.contains_key(k) by {
            if t.contains(k) {
                let a = choose|a: int| 0 <= a < t.len() && t[a] == k;
                assert(names@[a]@ == entries[a].0@);
                assert(st@.sessions.contains_key(entries[a].0@));
            }
            if st@.sessions.contains_key(k) {
                let a = choose|a: int| 0 <= a < entries.len() && (#[trigger] entries[a]).0@ == k;
                assert(names@[a]@ == k);
                assert(t[a] == k);
            }
        }
    }
    names
}

fn repair(st: &mut ServerState)
    requires
        old(st).named(),
    ensures
        final(st).named(),
        final(st)@ == repaired(old(st)@),
{
    let ghost before = st.sessions.entries@;
    let n: usize = st.sessions.entries.len();
    let mut i: usize = 0;
    while i < n
        invariant
            i <= n,
            n == st.sessions.entries.len(),
            before.len() == n,
            st.folders == old(st).folders,
            st.next_pane == old(st).next_pane,
            forall|k: int| 0 <= k < n ==> (#[trigger] st.sessions.entries@[k]).0@ == before[k].0@,
            forall|k: int|
                0 <= k < n ==> (#[trigger] st.sessions.entries@[k]).1@ == (if k < i {
                    before[k].1@.reconciled()
                } else {
                    before[k].1@
                }),
        decreases n - i,
    {
        st.sessions.entries[i].1.reconcile_pane_order();
        i += 1;
    }
    proof {
        let after = st.sessions.entries@;
        assert(names_distinct(after)) by {
            assert forall|a: int, b: int|
                0 <= a < after.len() && 0 <= b < after.len() && a != b implies
                #[trigger] after[a].0@ != #[trigger] after[b].0@ by {
                assert(after[a].0@ == before[a].0@);
                assert(after[b].0@ == before[b].0@);
            }
        }
        lemma_entries(before);
        lemma_entries(after);
        let m = named_values(before);
        let r = repaired(old(st)@).sessions;
        assert forall|k: Seq<char>| #[trigger]
            st@.sessions.contains_key(k) == r.contains_key(k) && (r.contains_key(k)
                ==> st@.sessions[k] == r[k]) by {
            if st@.sessions.contains_key(k) {
                let a = choose|a: int| 0 <= a < after.len() && (#[trigger] after[a]).0@ == k;
                assert(before[a].0@ == k);
            }
            if m.contains_key(k) {
                let a = choose|a: int| 0 <= a < before.len() && (#[trigger] before[a]).0@ == k;
                assert(after[a].0@ == k);
            }
        }
        assert(st@.sessions =~= r);
        assert(st@ =~= repaired(old(st)@));
    }
}

/// What the server starts with, given what was saved. Without saved sessions, or where they
/// are not wanted, it starts fresh; else they come live or stay dormant, as configured.
pub fn start(save_sessions: bool, automatic_restore: bool, loaded: Option<PersistedState>) -> (r:
    Started)
    requires
        loaded matches Some(p) ==> p.state.named(),
    ensures
        r.state.named(),
        r.dormant.state.named(),
        (loaded matches Some(p) ==> p.state.sound()) ==> r.state.sound() && r.dormant.state.sound(),
        !save_sessions || loaded is None ==> r.is_fresh(),
        save_sessions ==> (loaded matches Some(p) ==> if automatic_restore {
            r.is_restored(p@)
        } else {
            r.is_waiting(p@)
        }),
{
    let mut r = Started {
        state: ServerState::new(),
        dormant: PersistedState { state: ServerState::new(), pane_cwds: HashMap::new() },
        materialize: Vec::new(),
        cwds: HashMap::new(),
    };
    assert(dirs(r.cwds@) =~= Map::empty());
    assert(dirs(r.dormant.pane_cwds@) =~= Map::empty());
    assert(r.is_fresh());
    if !save_sessions {
        return r;
    }
    match loaded {
        Some(p) => {
            let ghost saved = p@;
            if automatic_restore {
                let mut state = p.state;
                state.ensure_id_counters();
                let ghost next = state@.next_pane;
                repair(&mut state);
                assert(state@ =~= (StateView { next_pane: next, ..repaired(saved.state) }));
                proof {
                    if saved.state.sound() {
                        law_a_repaired_state_is_sound(saved.state, next);
                    }
                }
                let names = session_names(&state);
                r.materialize = names;
                r.state = state;
                r.cwds = p.pane_cwds;
                assert(lists_all(texts(names@), saved.state.sessions)) by {
                    assert forall|k: Seq<char>| #[trigger]
                        texts(names@).contains(k) <==> saved.state.sessions.contains_key(k) by {
                        assert(repaired(saved.state).sessions.contains_key(k)
                            == saved.state.sessions.contains_key(k));
                    }
                }
                assert(dirs(r.cwds@) == saved.pane_cwds);
            } else {
                r.state.reserve_ids_above(&p.state);
                r.dormant = p;
                assert(r.state@ =~= (StateView { next_pane: saved.state.next_pane, ..empty_state()
                }));
            }
        },
        None => {},
    }
    r
}

/// A pane that gets a terminal again, and the directory for it.
#[derive(Debug)]
pub struct Revived {
    pub pane: PaneId,
    pub cols: u16,
    pub rows: u16,
    pub cwd: Option<String>,
}

/// A revived pane as a mathematical value.
pub struct RevivedView {
    pub pane: PaneId,
    pub cols: u16,
    pub rows: u16,
    pub cwd: Option<Seq<char>>,
}

impl View for Revived {
    type V = RevivedView;

    open spec fn view(&self) -> RevivedView {
        RevivedView { pane: self.pane, cols: self.cols, rows: self.rows, cwd: opt_text(self.cwd) }
    }
}

/// The panes of a list as mathematical values.
pub open spec fn revived_views(v: Seq<Revived>) -> Seq<RevivedView> {
    Seq::new(v.len(), |i: int| v[i]@)
}

/// A pane that gets a terminal of the default size, in the directory saved for it.
pub open spec fn revived(pane: PaneId, cwds: Map<PaneId, Seq<char>>) -> RevivedView {
    RevivedView {
        pane,
        cols: DEFAULT_COLS,
        rows: DEFAULT_ROWS,
        cwd: if cwds.contains_key(pane) {
            Some(cwds[pane])
        } else {
            None
        },
    }
}

/// The panes of a session that get terminals: those of all its tabs. None if there is no
/// such session.
pub open spec fn materialized(st: StateView, name: Seq<char>, cwds: Map<PaneId, Seq<char>>) -> Seq<
    RevivedView,
> {
    if st.sessions.contains_key(name) {
        let panes = panes_of(st.sessions[name].tabs, st.sessions[name].tabs.len() as int);
        Seq::new(panes.len(), |i: int| revived(panes[i], cwds))
    } else {
        Seq::empty()
    }
}

/// The panes of a session that get terminals, each of the default size until a client
/// attaches, and in the directory that was saved for it.
pub fn materialize_session(st: &ServerState, name: &str, cwds: &HashMap<PaneId, String>) -> (r: Vec<
    Revived,
>)
    ensures
        revived_views(r@) == materialized(st@, name@, dirs(cwds@)),
{
    let mut out: Vec<Revived> = Vec::new();
    assert(revived_views(out@) =~= Seq::empty());
    match st.sessions.get(name) {
        Some(s) => {
            let panes = s.all_panes();
            let ghost wanted = materialized(st@, name@, dirs(cwds@));
            let mut i: usize = 0;
            assert(wanted.take(0) =~= Seq::empty());
            while i < panes.len()
                invariant
                    i <= panes.len(),
                    wanted == Seq::new(
                        panes@.len(),
                        |i: int| revived(panes@[i], dirs(cwds@)),
                    ),
                    revived_views(out@) == wanted.take(i as int),
                decreases panes.len() - i,
            {
                let pane: PaneId = panes[i];
                let cwd: Option<String> = match cwds.get(&pane) {
                    Some(d) => Some(d.clone()),
                    None => None,
                };
                let ghost was = revived_views(out@);
                out.push(Revived { pane, cols: DEFAULT_COLS, rows: DEFAULT_ROWS, cwd });
                assert(out@.last()@ == wanted[i as int]);
                assert(revived_views(out@) =~= was.push(wanted[i as int]));
                assert(wanted.take(i + 1) =~= wanted.take(i as int).push(wanted[i as int]));
                i += 1;
            }
            assert(wanted.take(i as int) =~= wanted);
        },
        None => {},
    }
    out
}

/// Bring a dormant session back: the panes that get terminals. None if the session is not
/// dormant, or a live one has its name.
pub fn handle_resurrect_session(
    dormant: &mut PersistedState,
    live: &mut ServerState,
    name: &str,
) -> (r: Option<Vec<Revived>>)
    requires
        old(dormant).state.named(),
        old(live).named(),
    ensures
        final(dormant).state.named(),
        final(live).named(),
        old(dormant).state.sound() && old(live).sound() ==> final(dormant).state.sound()
            && final(live).sound(),
        r is Some == crate::dormant::can_return(old(dormant)@, old(live)@, name@),
        r is None ==> final(dormant)@ == old(dormant)@ && final(live)@ == old(live)@,
        r matches Some(panes) ==> {
            let back = crate::dormant::brought_back(old(dormant)@, old(live)@, name@);
            &&& final(dormant)@ == crate::dormant::left_behind(old(dormant)@, name@)
            &&& final(live)@ == (StateView { next_pane: final(live)@.next_pane, ..back })
            &&& back.least_free(old(live)@.next_pane, final(live)@.next_pane)
            &&& revived_views(panes@) == materialized(
                final(live)@,
                name@,
                crate::dormant::own_dirs(old(dormant)@, name@),
            )
        },
{
    proof {
        if dormant.state.sound() && live.sound() && crate::dormant::can_return(
            dormant@,
            live@,
            name@,
        ) {
            law_a_session_that_returns_is_sound(dormant@, live@, name@);
        }
    }
    match take_dormant_session(dormant, live, name) {
        Some(cwds) => Some(materialize_session(live, name, &cwds)),
        None => None,
    }
}

// ---------------------------------------------------------------------------
// Laws
// ---------------------------------------------------------------------------

/// What is in order comes back as it was saved: a server that saves its sessions and is
/// started again with them live has every one of them, live and dormant, unchanged.
pub proof fn law_saved_sessions_come_back(
    p: PersistedView,
    st: StateView,
    cwds: Map<PaneId, Seq<char>>,
    dormant: PersistedView,
    name: Seq<char>,
)
    requires
        is_saved(p, st, cwds, dormant),
        st.wf(),
    ensures
        st.sessions.contains_key(name) ==> repaired(p.state).sessions.contains_key(name)
            && repaired(p.state).sessions[name] == st.sessions[name],
        dormant.state.sessions.contains_key(name) && !st.sessions.contains_key(name) ==> repaired(
            p.state,
        ).sessions.contains_key(name) && repaired(p.state).sessions[name]
            == dormant.state.sessions[name].reconciled(),
        repaired(p.state).sessions.contains_key(name) ==> st.sessions.contains_key(name)
            || dormant.state.sessions.contains_key(name),
{
    if st.sessions.contains_key(name) {
        let s = st.sessions[name];
        assert(s.wf());
        assert(s.reconciled() =~= s) by {
            assert forall|i: int| 0 <= i < s.tabs.len() implies s.tabs[i].reconciled()
                == s.tabs[i] by {
                assert(s.tabs[i].wf());
            }
            assert(s.reconciled().tabs =~= s.tabs);
        }
    }
}

/// A sound state stays sound when it is repaired, so a saved one can be worked on as soon
/// as it is live.
pub proof fn law_a_repaired_state_is_sound(st: StateView, next: PaneId)
    requires
        st.sound(),
    ensures
        (StateView { next_pane: next, ..repaired(st) }).sound(),
{
    let r = StateView { next_pane: next, ..repaired(st) };
    assert forall|k: Seq<char>| #[trigger] r.sessions.contains_key(k) implies r.sessions[k].sound() by {
        let s = st.sessions[k];
        assert(s.sound());
        let t = s.reconciled();
        assert forall|i: int| 0 <= i < t.tabs.len() implies (#[trigger] t.tabs[i]).sound() by {
            assert(s.tabs[i].sound());
        }
    }
}

/// A sound session that is brought back leaves both states sound.
pub proof fn law_a_session_that_returns_is_sound(
    dormant: PersistedView,
    live: StateView,
    name: Seq<char>,
)
    requires
        dormant.state.sound(),
        live.sound(),
        crate::dormant::can_return(dormant, live, name),
    ensures
        crate::dormant::brought_back(dormant, live, name).sound(),
        crate::dormant::left_behind(dormant, name).state.sound(),
{
    let s = dormant.state.sessions[name];
    assert(s.sound());
    let t = s.reconciled();
    assert forall|i: int| 0 <= i < t.tabs.len() implies (#[trigger] t.tabs[i]).sound() by {
        assert(s.tabs[i].sound());
    }
    let back = crate::dormant::brought_back(dormant, live, name);
    assert forall|k: Seq<char>| #[trigger] back.sessions.contains_key(k) implies back.sessions[k].sound() by {
        if k != name {
            assert(live.sessions.contains_key(k));
        }
    }
    let left = crate::dormant::left_behind(dormant, name).state;
    assert forall|k: Seq<char>| #[trigger] left.sessions.contains_key(k) implies left.sessions[k].sound() by {
        assert(dormant.state.sessions.contains_key(k));
    }
}

/// After the repair every tab's list of panes holds exactly the panes of its arrangement.
pub proof fn law_a_repair_makes_lists_agree(st: StateView, name: Seq<char>, i: int)
    requires
        st.sessions.contains_key(name),
        0 <= i < st.sessions[name].tabs.len(),
    ensures
        ({
            let t = repaired(st).sessions[name].tabs[i];
            t.layout.ids().to_multiset() == t.order.to_multiset()
        }),
{
}

/// Waiting sessions are out of the way of new ones: no id that a live pane gets afterwards
/// is used by a dormant session.
pub proof fn law_dormant_ids_are_not_given_out(r: Started, saved: PersistedView, name: Seq<char>, p: PaneId)
    requires
        r.is_waiting(saved),
        saved.state.ids_reserved(),
        saved.state.next_pane < u64::MAX,
        saved.state.sessions.contains_key(name),
        occurs(saved.state.sessions[name], p),
    ensures
        p < r.state@.next_pane,
{
}

/// Every pane of a session that comes live gets exactly one terminal.
pub proof fn law_every_pane_is_revived(
    st: StateView,
    name: Seq<char>,
    cwds: Map<PaneId, Seq<char>>,
    tab: int,
    pane: PaneId,
)
    requires
        st.wf(),
        st.sessions.contains_key(name),
        0 <= tab < st.sessions[name].tabs.len(),
        st.sessions[name].tabs[tab].order.contains(pane),
    ensures
        materialized(st, name, cwds).contains(revived(pane, cwds)),
        forall|i: int, j: int|
            0 <= i < j < materialized(st, name, cwds).len() ==> (#[trigger] materialized(
                st,
                name,
                cwds,
            )[i]).pane != (#[trigger] materialized(st, name, cwds)[j]).pane,
{
    let s = st.sessions[name];
    assert(s.wf());
    let n = s.tabs.len() as int;
    let panes = panes_of(s.tabs, n);
    lemma_in_panes(s.tabs, n, tab, pane);
    let i = choose|i: int| 0 <= i < panes.len() && panes[i] == pane;
    assert(materialized(st, name, cwds)[i] == revived(pane, cwds));
    lemma_panes_once(s, n);
}

proof fn lemma_in_panes(tabs: Seq<TabView>, n: int, tab: int, pane: PaneId)
    requires
        0 <= tab < n <= tabs.len(),
        tabs[tab].order.contains(pane),
    ensures
        panes_of(tabs, n).contains(pane),
    decreases n,
{
    let before = panes_of(tabs, n - 1);
    if tab == n - 1 {
        let i = choose|i: int| 0 <= i < tabs[tab].order.len() && tabs[tab].order[i] == pane;
        assert(panes_of(tabs, n)[before.len() + i] == pane);
    } else {
        lemma_in_panes(tabs, n - 1, tab, pane);
        let i = choose|i: int| 0 <= i < before.len() && before[i] == pane;
        assert(panes_of(tabs, n)[i] == pane);
    }
}

proof fn lemma_panes_of(tabs: Seq<TabView>, n: int, i: int)
    requires
        0 <= n <= tabs.len(),
        0 <= i < panes_of(tabs, n).len(),
    ensures
        exists|t: int| 0 <= t < n && #[trigger] tabs[t].order.contains(panes_of(tabs, n)[i]),
    decreases n,
{
    if n > 0 {
        let before = panes_of(tabs, n - 1);
        if i < before.len() {
            lemma_panes_of(tabs, n - 1, i);
            let t = choose|t: int| 0 <= t < n - 1 && #[trigger] tabs[t].order.contains(before[i]);
            assert(tabs[t].order.contains(panes_of(tabs, n)[i]));
        } else {
            assert(tabs[n - 1].order[i - before.len()] == panes_of(tabs, n)[i]);
            assert(tabs[n - 1].order.contains(panes_of(tabs, n)[i]));
        }
    }
}

proof fn lemma_panes_once(s: SessionView, n: int)
    requires
        s.wf(),
        0 <= n <= s.tabs.len(),
    ensures
        panes_of(s.tabs, n).no_duplicates(),
    decreases n,
{
    if n > 0 {
        lemma_panes_once(s, n - 1);
        let before = panes_of(s.tabs, n - 1);
        let all = panes_of(s.tabs, n);
        assert(s.tabs[n - 1].wf());
        assert forall|i: int, j: int| 0 <= i < all.len() && 0 <= j < all.len() && i != j implies
            all[i] != all[j] by {
            let (a, b) = if i < j {
                (i, j)
            } else {
                (j, i)
            };
            if a < before.len() && b >= before.len() {
                lemma_panes_of(s.tabs, n - 1, a);
                let t = choose|t: int|
                    0 <= t < n - 1 && #[trigger] s.tabs[t].order.contains(before[a]);
                assert(s.tabs[n - 1].order[b - before.len()] == all[b]);
                assert(s.tabs[n - 1].order.contains(all[b]));
                if all[a] == all[b] {
                    assert(s.tabs[t].order.contains(all[b]));
                }
            }
        }
    }
}

} // verus!
