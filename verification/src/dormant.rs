//! Sessions that are saved but not live, and how they come back.

use crate::layout::{all_pane_ids, opt_text, PaneId};
use crate::names::{named_values, NameMap};
use crate::session::{Session, SessionView};
use crate::state::{filed, unfiled, with_name, Folder, FolderView, ServerState, StateView};
use std::collections::HashMap;
use vstd::prelude::*;
use vstd::std_specs::iter::IteratorSpec;

verus! {

broadcast use vstd::std_specs::hash::group_hash_axioms;

/// A state with the working directories of its panes, as it is saved.
#[derive(Debug)]
pub struct PersistedState {
    pub state: ServerState,
    pub pane_cwds: HashMap<PaneId, String>,
}

/// The directories as characters.
pub open spec fn dirs(m: Map<PaneId, String>) -> Map<PaneId, Seq<char>> {
    Map::new(|p: PaneId| m.contains_key(p), |p: PaneId| m[p]@)
}

/// A saved state as a mathematical value.
#[verifier::ext_equal]
pub struct PersistedView {
    pub state: StateView,
    pub pane_cwds: Map<PaneId, Seq<char>>,
}

impl View for PersistedState {
    type V = PersistedView;

    open spec fn view(&self) -> PersistedView {
        PersistedView { state: self.state@, pane_cwds: dirs(self.pane_cwds@) }
    }
}

// ---------------------------------------------------------------------------
// Saving live and dormant sessions together
// ---------------------------------------------------------------------------

/// The sessions of both states; a live one wins over a dormant one of its name.
pub open spec fn joined_sessions(
    live: Map<Seq<char>, SessionView>,
    dormant: Map<Seq<char>, SessionView>,
) -> Map<Seq<char>, SessionView> {
    dormant.union_prefer_right(live)
}

/// A list with the first `n` names of another added, each one once.
pub open spec fn joined_names(a: Seq<Seq<char>>, b: Seq<Seq<char>>, n: int) -> Seq<Seq<char>>
    decreases n,
{
    if n <= 0 {
        a
    } else {
        with_name(joined_names(a, b, n - 1), b[n - 1])
    }
}

/// A folder of the live state with the sessions of the dormant one of its name.
pub open spec fn joined_folder(
    live: Map<Seq<char>, FolderView>,
    dormant: FolderView,
    name: Seq<char>,
) -> FolderView {
    let own = if live.contains_key(name) {
        live[name]
    } else {
        FolderView { name, session_ids: Seq::empty() }
    };
    FolderView {
        session_ids: joined_names(
            own.session_ids,
            dormant.session_ids,
            dormant.session_ids.len() as int,
        ),
        ..own
    }
}

/// The folders of both states, each with the sessions of both.
pub open spec fn joined_folders(
    live: Map<Seq<char>, FolderView>,
    dormant: Map<Seq<char>, FolderView>,
) -> Map<Seq<char>, FolderView> {
    Map::new(
        |k: Seq<char>| live.contains_key(k) || dormant.contains_key(k),
        |k: Seq<char>|
            if dormant.contains_key(k) {
                joined_folder(live, dormant[k], k)
            } else {
                live[k]
            },
    )
}

/// The two states joined, but for the next pane id.
pub open spec fn joined(live: PersistedView, dormant: PersistedView) -> PersistedView {
    PersistedView {
        state: StateView {
            sessions: joined_sessions(live.state.sessions, dormant.state.sessions),
            folders: joined_folders(live.state.folders, dormant.state.folders),
            next_pane: live.state.next_pane,
        },
        pane_cwds: dormant.pane_cwds.union_prefer_right(live.pane_cwds),
    }
}

fn join_sessions(live: &mut NameMap<Session>, dormant: &NameMap<Session>)
    requires
        old(live).wf(),
        dormant.wf(),
    ensures
        final(live).wf(),
        final(live)@ == joined_sessions(old(live)@, dormant@),
{
    let ghost base = live@;
    let ghost entries = dormant.entries@;
    let mut i: usize = 0;
    proof {
        assert(entries.take(0) =~= Seq::empty());
        assert(named_values(entries.take(0)) =~= Map::empty());
        assert(live@ =~= named_values(entries.take(0)).union_prefer_right(base));
    }
    while i < dormant.entries.len()
        invariant
            i <= dormant.entries.len(),
            entries == dormant.entries@,
            dormant.wf(),
            live.wf(),
            live@ == named_values(entries.take(i as int)).union_prefer_right(base),
        decreases dormant.entries.len() - i,
    {
        proof {
            crate::names::lemma_one_more_entry(entries, i as int);
        }
        let name: &String = &dormant.entries[i].0;
        let ghost before = live@;
        let known = live.contains_key(name);
        if !known {
            live.insert(name, dormant.entries[i].1.duplicate());
        }
        assert(live@ =~= named_values(entries.take(i + 1)).union_prefer_right(base));
        i += 1;
    }
    assert(entries.take(i as int) =~= entries);
    assert(live@ =~= joined_sessions(base, dormant@));
}

fn join_names(own: &mut Folder, more: &Vec<String>)
    ensures
        final(own)@ == (FolderView {
            session_ids: joined_names(
                old(own)@.session_ids,
                crate::layout::texts(more@),
                more@.len() as int,
            ),
            ..old(own)@
        }),
{
    let ghost names = crate::layout::texts(more@);
    let mut i: usize = 0;
    while i < more.len()
        invariant
            i <= more.len(),
            names == crate::layout::texts(more@),
            own@ == (FolderView {
                session_ids: joined_names(old(own)@.session_ids, names, i as int),
                ..old(own)@
            }),
        decreases more.len() - i,
    {
        own.file(&more[i]);
        i += 1;
    }
}

fn join_folders(live: &mut NameMap<Folder>, dormant: &NameMap<Folder>)
    requires
        old(live).wf(),
        dormant.wf(),
    ensures
        final(live).wf(),
        final(live)@ == joined_folders(old(live)@, dormant@),
{
    let ghost base = live@;
    let ghost entries = dormant.entries@;
    let mut i: usize = 0;
    proof {
        assert(entries.take(0) =~= Seq::empty());
        assert(named_values(entries.take(0)) =~= Map::empty());
        assert(live@ =~= joined_folders(base, named_values(entries.take(0))));
    }
    while i < dormant.entries.len()
        invariant
            i <= dormant.entries.len(),
            entries == dormant.entries@,
            dormant.wf(),
            live.wf(),
            live@ == joined_folders(base, named_values(entries.take(i as int))),
        decreases dormant.entries.len() - i,
    {
        proof {
            crate::names::lemma_one_more_entry(entries, i as int);
        }
        let ghost few = named_values(entries.take(i as int));
        let ghost more = named_values(entries.take(i + 1));
        let name: &String = &dormant.entries[i].0;
        let mut own = match live.get(name) {
            Some(f) => f.duplicate(),
            None => Folder::new(name),
        };
        join_names(&mut own, &dormant.entries[i].1.session_ids);
        assert(own@ == joined_folder(base, entries[i as int].1@, name@));
        live.insert(name, own);
        proof {
            let wanted = joined_folders(base, more);
            assert forall|k: Seq<char>| #[trigger] live@.contains_key(k) == wanted.contains_key(k)
                && (live@.contains_key(k) ==> live@[k] == wanted[k]) by {
                if k != name@ {
                    assert(more.contains_key(k) == few.contains_key(k));
                }
            }
            assert(live@ =~= wanted);
        }
        i += 1;
    }
    assert(entries.take(i as int) =~= entries);
}

fn join_dirs(live: &mut HashMap<PaneId, String>, dormant: &HashMap<PaneId, String>)
    ensures
        dirs(final(live)@) == dirs(dormant@).union_prefer_right(dirs(old(live)@)),
{
    let ghost base = live@;
    for entry in it: dormant.iter()
        invariant
            forall|p: PaneId| #[trigger]
                live@.contains_key(p) ==> base.contains_key(p) || dormant@.contains_key(p),
            forall|p: PaneId| #[trigger]
                base.contains_key(p) ==> live@.contains_key(p) && live@[p] == base[p],
            forall|p: PaneId| #[trigger]
                live@.contains_key(p) && !base.contains_key(p) ==> live@[p]@ == dormant@[p]@,
            forall|i: int|
                0 <= i < it.index() ==> live@.contains_key(*(#[trigger] it.seq()[i]).0),
            it.seq() == vstd::std_specs::hash::spec_hash_map_iter(dormant).remaining(),
    {
        let (pane, dir) = entry;
        assert(dormant@.contains_key(*it.seq()[it.index()].0));
        if !live.contains_key(pane) {
            live.insert(*pane, dir.clone());
        }
    }
    assert(dirs(live@) =~= dirs(dormant@).union_prefer_right(dirs(base))) by {
        assert forall|p: PaneId| dormant@.contains_key(p) implies live@.contains_key(p) by {
            let v = vstd::std_specs::hash::spec_hash_map_iter(dormant).remaining();
            assert(v.contains((&p, &dormant@[p])));
            let i = choose|i: int| 0 <= i < v.len() && v[i] == (&p, &dormant@[p]);
            assert(live@.contains_key(*v[i].0));
        }
    }
}

/// Nothing is dormant.
pub open spec fn nothing_dormant(d: PersistedView) -> bool {
    d.state.sessions == Map::<Seq<char>, SessionView>::empty() && d.state.folders == Map::<
        Seq<char>,
        FolderView,
    >::empty()
}

/// Add the dormant sessions, folders and directories to a snapshot of the live state,
/// so that saving it loses neither.
pub fn merge_dormant_into(target: &mut PersistedState, dormant: &PersistedState)
    requires
        old(target).state.named(),
        dormant.state.named(),
    ensures
        final(target).state.named(),
        nothing_dormant(dormant@) ==> final(target)@ == old(target)@,
        !nothing_dormant(dormant@) ==> {
            let all = joined(old(target)@, dormant@);
            &&& final(target)@ == (PersistedView {
                state: StateView { next_pane: final(target)@.state.next_pane, ..all.state },
                ..all
            })
            &&& all.state.least_free(old(target)@.state.next_pane, final(target)@.state.next_pane)
        },
{
    if dormant.state.sessions.len() == 0 && dormant.state.folders.len() == 0 {
        return;
    }
    join_sessions(&mut target.state.sessions, &dormant.state.sessions);
    join_folders(&mut target.state.folders, &dormant.state.folders);
    join_dirs(&mut target.pane_cwds, &dormant.pane_cwds);
    assert(target@ =~= joined(old(target)@, dormant@));
    target.state.ensure_id_counters();
}

/// Saving loses nothing: every live session is saved as it is, and so is every dormant
/// one whose name no live session has.
pub proof fn law_a_save_keeps_live_and_dormant_sessions(
    live: PersistedView,
    dormant: PersistedView,
    name: Seq<char>,
)
    ensures
        live.state.sessions.contains_key(name) ==> joined(live, dormant).state.sessions.contains_key(
            name,
        ) && joined(live, dormant).state.sessions[name] == live.state.sessions[name],
        dormant.state.sessions.contains_key(name) && !live.state.sessions.contains_key(name)
            ==> joined(live, dormant).state.sessions.contains_key(name) && joined(
            live,
            dormant,
        ).state.sessions[name] == dormant.state.sessions[name],
        joined(live, dormant).state.sessions.contains_key(name)
            ==> live.state.sessions.contains_key(name) || dormant.state.sessions.contains_key(name),
{
}

// ---------------------------------------------------------------------------
// Bringing a session back
// ---------------------------------------------------------------------------

/// All panes of the arrangements of the first `n` tabs.
pub open spec fn arranged(s: SessionView, n: int) -> Seq<PaneId>
    decreases n,
{
    if n <= 0 {
        Seq::empty()
    } else {
        arranged(s, n - 1) + s.tabs[n - 1].layout.ids()
    }
}

/// A session can be brought back if it is dormant and no live one has its name.
pub open spec fn can_return(dormant: PersistedView, live: StateView, name: Seq<char>) -> bool {
    dormant.state.sessions.contains_key(name) && !live.sessions.contains_key(name)
}

/// The dormant state once a session has left it.
pub open spec fn left_behind(dormant: PersistedView, name: Seq<char>) -> PersistedView {
    let s = dormant.state.sessions[name];
    let ids = arranged(s, s.tabs.len() as int);
    PersistedView {
        state: StateView {
            sessions: dormant.state.sessions.remove(name),
            folders: unfiled(dormant.state.folders, s.folder, name),
            ..dormant.state
        },
        pane_cwds: Map::new(
            |p: PaneId| dormant.pane_cwds.contains_key(p) && !ids.contains(p),
            |p: PaneId| dormant.pane_cwds[p],
        ),
    }
}

/// The directories of a session's panes.
pub open spec fn own_dirs(dormant: PersistedView, name: Seq<char>) -> Map<PaneId, Seq<char>> {
    let s = dormant.state.sessions[name];
    let ids = arranged(s, s.tabs.len() as int);
    Map::new(
        |p: PaneId| dormant.pane_cwds.contains_key(p) && ids.contains(p),
        |p: PaneId| dormant.pane_cwds[p],
    )
}

/// The live state with a session brought back, but for the next pane id.
pub open spec fn brought_back(dormant: PersistedView, live: StateView, name: Seq<char>) -> StateView {
    let s = dormant.state.sessions[name];
    StateView {
        sessions: live.sessions.insert(name, s.reconciled()),
        folders: filed(live.folders, s.folder, name),
        ..live
    }
}

fn arranged_panes(s: &Session) -> (r: Vec<PaneId>)
    ensures
        r@ == arranged(s@, s@.tabs.len() as int),
{
    let mut r: Vec<PaneId> = Vec::new();
    let mut i: usize = 0;
    while i < s.tabs.len()
        invariant
            i <= s.tabs.len(),
            r@ == arranged(s@, i as int),
        decreases s.tabs.len() - i,
    {
        let mut more = all_pane_ids(&s.tabs[i].layout);
        assert(s@.tabs[i as int].layout.ids() == more@);
        r.append(&mut more);
        i += 1;
    }
    r
}

fn take_dirs(from: &mut HashMap<PaneId, String>, ids: &Vec<PaneId>) -> (r: HashMap<PaneId, String>)
    ensures
        dirs(final(from)@) == Map::new(
            |p: PaneId| dirs(old(from)@).contains_key(p) && !ids@.contains(p),
            |p: PaneId| dirs(old(from)@)[p],
        ),
        dirs(r@) == Map::new(
            |p: PaneId| dirs(old(from)@).contains_key(p) && ids@.contains(p),
            |p: PaneId| dirs(old(from)@)[p],
        ),
{
    let ghost base = from@;
    let mut r: HashMap<PaneId, String> = HashMap::new();
    let mut i: usize = 0;
    while i < ids.len()
        invariant
            i <= ids.len(),
            forall|p: PaneId| #[trigger]
                from@.contains_key(p) == (base.contains_key(p) && !ids@.take(i as int).contains(p)),
            forall|p: PaneId| #[trigger] from@.contains_key(p) ==> from@[p] == base[p],
            forall|p: PaneId| #[trigger]
                r@.contains_key(p) == (base.contains_key(p) && ids@.take(i as int).contains(p)),
            forall|p: PaneId| #[trigger] r@.contains_key(p) ==> r@[p] == base[p],
        decreases ids.len() - i,
    {
        let id: PaneId = ids[i];
        let ghost few = ids@.take(i as int);
        let ghost more = ids@.take(i + 1);
        assert forall|p: PaneId| #[trigger] more.contains(p) == (few.contains(p) || p == id) by {
            if few.contains(p) {
                let k = choose|k: int| 0 <= k < few.len() && few[k] == p;
                assert(more[k] == p);
            }
            if p == id {
                assert(more[i as int] == p);
            }
        }
        match from.remove(&id) {
            Some(dir) => {
                r.insert(id, dir);
            },
            None => {},
        }
        i += 1;
    }
    assert(ids@.take(i as int) =~= ids@);
    assert(dirs(from@) =~= Map::new(
        |p: PaneId| dirs(base).contains_key(p) && !ids@.contains(p),
        |p: PaneId| dirs(base)[p],
    ));
    assert(dirs(r@) =~= Map::new(
        |p: PaneId| dirs(base).contains_key(p) && ids@.contains(p),
        |p: PaneId| dirs(base)[p],
    ));
    r
}

fn file_under(folders: &mut NameMap<Folder>, folder: &Option<String>, session: &str)
    requires
        old(folders).wf(),
    ensures
        final(folders).wf(),
        final(folders)@ == filed(old(folders)@, opt_text(*folder), session@),
{
    match folder {
        Some(f) => {
            let mut own = match folders.get(f) {
                Some(x) => x.duplicate(),
                None => Folder::new(f),
            };
            own.file(session);
            folders.insert(f, own);
        },
        None => {},
    }
}

fn unfile_from(folders: &mut NameMap<Folder>, folder: &Option<String>, session: &str)
    requires
        old(folders).wf(),
    ensures
        final(folders).wf(),
        final(folders)@ == unfiled(old(folders)@, opt_text(*folder), session@),
{
    match folder {
        Some(f) => {
            match folders.get_mut(f) {
                Some(x) => {
                    x.unfile(session);
                },
                None => {},
            }
        },
        None => {},
    }
}

/// Move a session from the dormant state to the live one; the directories of its
/// panes. Nothing happens if the session is not dormant, or if a live one has its name.
pub fn take_dormant_session(dormant: &mut PersistedState, live: &mut ServerState, name: &str) -> (r:
    Option<HashMap<PaneId, String>>)
    requires
        old(dormant).state.named(),
        old(live).named(),
    ensures
        final(dormant).state.named(),
        final(live).named(),
        r is Some == can_return(old(dormant)@, old(live)@, name@),
        r is None ==> final(dormant)@ == old(dormant)@ && final(live)@ == old(live)@,
        r matches Some(cwds) ==> {
            let back = brought_back(old(dormant)@, old(live)@, name@);
            &&& dirs(cwds@) == own_dirs(old(dormant)@, name@)
            &&& final(dormant)@ == left_behind(old(dormant)@, name@)
            &&& final(live)@ == (StateView { next_pane: final(live)@.next_pane, ..back })
            &&& back.least_free(old(live)@.next_pane, final(live)@.next_pane)
        },
{
    if live.sessions.contains_key(name) {
        return None;
    }
    let mut session = match dormant.state.sessions.remove(name) {
        Some(s) => s,
        None => {
            assert(dormant@.state.sessions =~= old(dormant)@.state.sessions);
            return None;
        },
    };
    let ghost s = session@;
    let ids = arranged_panes(&session);
    session.reconcile_pane_order();
    unfile_from(&mut dormant.state.folders, &session.folder, name);
    let cwds = take_dirs(&mut dormant.pane_cwds, &ids);
    file_under(&mut live.folders, &session.folder, name);
    live.sessions.insert(name, session);
    assert(live@ =~= brought_back(old(dormant)@, old(live)@, name@));
    assert(dormant@ =~= left_behind(old(dormant)@, name@));
    live.ensure_id_counters();
    Some(cwds)
}

/// A session that came back is live and no longer dormant, and every other session is
/// where it was.
pub proof fn law_a_session_is_either_live_or_dormant(
    dormant: PersistedView,
    live: StateView,
    name: Seq<char>,
    other: Seq<char>,
)
    requires
        can_return(dormant, live, name),
        other != name,
    ensures
        brought_back(dormant, live, name).sessions.contains_key(name),
        !left_behind(dormant, name).state.sessions.contains_key(name),
        brought_back(dormant, live, name).sessions.contains_key(other)
            == live.sessions.contains_key(other),
        left_behind(dormant, name).state.sessions.contains_key(other)
            == dormant.state.sessions.contains_key(other),
{
}

/// A session cannot be brought back twice.
pub proof fn law_a_session_returns_once(dormant: PersistedView, live: StateView, name: Seq<char>)
    requires
        can_return(dormant, live, name),
    ensures
        !can_return(left_behind(dormant, name), brought_back(dormant, live, name), name),
{
}

} // verus!
