//! What a save holds of the live and the dormant sessions, and what is left of a dormant
//! session that is brought back.

use crate::dormant::{
    arranged, brought_back, joined, joined_names, left_behind, own_dirs, PersistedView,
};
use crate::effect_laws::{lemma_put_on, lemma_taken_out};
use crate::layout::PaneId;
use crate::session::SessionView;
use crate::state::StateView;
use vstd::prelude::*;

verus! {

proof fn lemma_joined_names(a: Seq<Seq<char>>, b: Seq<Seq<char>>, n: int, name: Seq<char>)
    requires
        0 <= n <= b.len(),
    ensures
        joined_names(a, b, n).contains(name) <==> a.contains(name) || b.take(n).contains(name),
    decreases n,
{
    if n > 0 {
        lemma_joined_names(a, b, n - 1, name);
        lemma_put_on(joined_names(a, b, n - 1), b[n - 1]);
        let few = b.take(n - 1);
        let more = b.take(n);
        if few.contains(name) {
            let j = choose|j: int| 0 <= j < few.len() && few[j] == name;
            assert(more[j] == name);
        }
        if more.contains(name) && name != b[n - 1] {
            let j = choose|j: int| 0 <= j < more.len() && more[j] == name;
            assert(few[j] == name);
        }
        if name == b[n - 1] {
            assert(more[n - 1] == name);
        }
    } else {
        assert(b.take(0).len() == 0);
    }
}

/// Every folder of either state is saved, with the sessions that it has in either.
pub proof fn law_a_save_keeps_every_folder(
    live: PersistedView,
    dormant: PersistedView,
    f: Seq<char>,
    name: Seq<char>,
)
    ensures
        ({
            let all = joined(live, dormant).state.folders;
            let a = live.state.folders;
            let b = dormant.state.folders;
            &&& all.contains_key(f) <==> a.contains_key(f) || b.contains_key(f)
            &&& all.contains_key(f) ==> (all[f].session_ids.contains(name) <==> (a.contains_key(f)
                && a[f].session_ids.contains(name)) || (b.contains_key(f)
                && b[f].session_ids.contains(name)))
        }),
{
    let a = live.state.folders;
    let b = dormant.state.folders;
    if b.contains_key(f) {
        let own = if a.contains_key(f) {
            a[f].session_ids
        } else {
            Seq::empty()
        };
        let ids = b[f].session_ids;
        lemma_joined_names(own, ids, ids.len() as int, name);
        assert(ids.take(ids.len() as int) =~= ids);
    }
}

/// The directory of a pane is saved. A live pane's own goes before one that was saved earlier.
pub proof fn law_a_save_keeps_every_directory(live: PersistedView, dormant: PersistedView, p: PaneId)
    ensures
        ({
            let all = joined(live, dormant).pane_cwds;
            &&& live.pane_cwds.contains_key(p) ==> all.contains_key(p) && all[p]
                == live.pane_cwds[p]
            &&& !live.pane_cwds.contains_key(p) && dormant.pane_cwds.contains_key(p)
                ==> all.contains_key(p) && all[p] == dormant.pane_cwds[p]
            &&& !live.pane_cwds.contains_key(p) && !dormant.pane_cwds.contains_key(p)
                ==> !all.contains_key(p)
        }),
{
}

proof fn lemma_arranged(s: SessionView, n: int, p: PaneId)
    requires
        0 <= n <= s.tabs.len(),
    ensures
        arranged(s, n).contains(p) <==> exists|i: int|
            0 <= i < n && (#[trigger] s.tabs[i]).layout.ids().contains(p),
    decreases n,
{
    if n > 0 {
        lemma_arranged(s, n - 1, p);
        let few = arranged(s, n - 1);
        let own = s.tabs[n - 1].layout.ids();
        let all = arranged(s, n);
        assert(all == few + own);
        if few.contains(p) {
            let j = choose|j: int| 0 <= j < few.len() && few[j] == p;
            assert(all[j] == p);
        }
        if own.contains(p) {
            let j = choose|j: int| 0 <= j < own.len() && own[j] == p;
            assert(all[few.len() + j] == p);
        }
        if all.contains(p) {
            let j = choose|j: int| 0 <= j < all.len() && all[j] == p;
            if j < few.len() {
                assert(few[j] == p);
            } else {
                assert(own[j - few.len()] == p);
            }
        }
    }
}

/// A session that is brought back is live and no longer dormant; it is in its folder and takes
/// the directories of its panes along. No other session, dormant or live, is touched, and the
/// directories of their panes stay.
pub proof fn law_a_session_comes_back_with_its_own(
    dormant: PersistedView,
    live: StateView,
    name: Seq<char>,
    other: Seq<char>,
    p: PaneId,
)
    requires
        dormant.state.sessions.contains_key(name),
        other != name,
    ensures
        ({
            let s = dormant.state.sessions[name];
            let now = brought_back(dormant, live, name);
            let rest = left_behind(dormant, name);
            let dirs = own_dirs(dormant, name);
            let its = exists|i: int|
                0 <= i < s.tabs.len() && (#[trigger] s.tabs[i]).layout.ids().contains(p);
            &&& now.sessions.contains_key(name) && !rest.state.sessions.contains_key(name)
            &&& now.sessions[name].tabs.len() == s.tabs.len()
            &&& forall|i: int|
                0 <= i < s.tabs.len() ==> (#[trigger] now.sessions[name].tabs[i]).layout
                    == s.tabs[i].layout
            &&& now.sessions.contains_key(other) == live.sessions.contains_key(other)
            &&& live.sessions.contains_key(other) ==> now.sessions[other] == live.sessions[other]
            &&& rest.state.sessions.contains_key(other) == dormant.state.sessions.contains_key(
                other,
            )
            &&& dormant.state.sessions.contains_key(other) ==> rest.state.sessions[other]
                == dormant.state.sessions[other]
            &&& s.folder matches Some(f) ==> now.folders.contains_key(f)
                && now.folders[f].session_ids.contains(name)
            &&& s.folder matches Some(f) ==> (rest.state.folders.contains_key(f)
                ==> !rest.state.folders[f].session_ids.contains(name))
            &&& dormant.pane_cwds.contains_key(p) && its ==> dirs.contains_key(p) && dirs[p]
                == dormant.pane_cwds[p] && !rest.pane_cwds.contains_key(p)
            &&& dormant.pane_cwds.contains_key(p) && !its ==> !dirs.contains_key(p)
                && rest.pane_cwds.contains_key(p) && rest.pane_cwds[p] == dormant.pane_cwds[p]
        }),
{
    let s = dormant.state.sessions[name];
    lemma_arranged(s, s.tabs.len() as int, p);
    if s.folder is Some {
        let f = s.folder->0;
        if dormant.state.folders.contains_key(f) {
            lemma_taken_out(dormant.state.folders[f].session_ids, name);
        }
        if live.folders.contains_key(f) {
            lemma_put_on(live.folders[f].session_ids, name);
        } else {
            lemma_put_on(Seq::empty(), name);
        }
    }
}

} // verus!
