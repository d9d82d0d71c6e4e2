//! What holds of the server's state whatever is done to it.

use crate::edits::{cascaded, place_after_move, refiled, shifted, TabChange};
use crate::layout::PaneId;
use crate::layout_modes::LayoutMode;
use crate::session::{lemma_tab_with, moved, CloseAction, SessionView};
use crate::state::{with_session, StateView, FIRST_TAB};
use crate::config::BorderStyle;
use crate::tab::{sound_tree, TabView};
use crate::tab_laws::{
    law_a_changed_tab_stays_sound, law_a_fresh_tab_is_in_order,
    law_a_tab_without_a_pane_stays_sound,
};
use vstd::prelude::*;

verus! {

// ---------------------------------------------------------------------------
// One session
// ---------------------------------------------------------------------------

/// A session that is in order can be drawn and worked on.
pub proof fn law_what_is_in_order_is_sound(s: SessionView)
    requires
        s.wf(),
    ensures
        s.sound(),
{
}

proof fn lemma_tab_replaced(s: SessionView, i: int, t: TabView)
    requires
        s.sound(),
        0 <= i < s.tabs.len(),
        t.sound(),
    ensures
        s.with_tab(i, t).sound(),
{
}

/// Working on the tabs of a session leaves one shown, and each one fit to be drawn.
pub proof fn law_a_session_stays_sound(
    s: SessionView,
    i: int,
    c: TabChange,
    number: usize,
    delta: int,
    mode: LayoutMode,
    name: Seq<char>,
    pane: PaneId,
)
    requires
        s.sound(),
        0 <= i < s.tabs.len(),
        s.tabs.len() <= usize::MAX,
        mode.valid(),
        c matches TabChange::Arrange(n) ==> sound_tree(n@),
        c matches TabChange::Show(n, _) ==> sound_tree(n@),
    ensures
        s.with_tab(i, s.tabs[i].changed(c)).sound(),
        s.showing(i).sound(),
        s.tabs.len() > 1 ==> s.without_tab(i).sound(),
        s.tab_moved(number).sound(),
        s.tab_shifted(i, delta).sound(),
        s.with_new_tab(TabView::fresh(name, mode, pane)).sound(),
        s.restyled().sound(),
        s.popup_toggled(pane).sound(),
        s.no_popup().sound(),
{
    law_a_changed_tab_stays_sound(s.tabs[i], c);
    law_a_fresh_tab_is_in_order(name, mode, pane);
    lemma_tab_replaced(s, i, s.tabs[i].changed(c));
    lemma_tab_replaced(
        s,
        i,
        TabView { activity: crate::config::TabActivity::Quiet, ..s.tabs[i] },
    );
    let to = shifted(i, delta, s.tabs.len() as int);
    assert(0 <= to < s.tabs.len());
    assert forall|k: int| 0 <= k < s.tabs.len() implies (#[trigger] s.tab_shifted(
        i,
        delta,
    ).tabs[k]).sound() by {
        lemma_moved_member(s.tabs, i, to, k);
    }
    let at = s.tab_place(number);
    if s.active != at {
        assert forall|k: int| 0 <= k < s.tabs.len() implies (#[trigger] s.tab_moved(
            number,
        ).tabs[k]).sound() by {
            lemma_moved_member(s.tabs, s.active as int, at, k);
        }
    }
}

proof fn lemma_moved_member(s: Seq<TabView>, from: int, to: int, k: int)
    requires
        0 <= from < s.len(),
        0 <= to < s.len(),
        0 <= k < s.len(),
    ensures
        moved(s, from, to).len() == s.len(),
        exists|j: int| 0 <= j < s.len() && moved(s, from, to)[k] == #[trigger] s[j],
{
    let rest = s.remove(from);
    let all = rest.insert(to, s[from]);
    if k < to {
        assert(all[k] == rest[k]);
        assert(rest[k] == s[if k < from {
            k
        } else {
            k + 1
        }]);
    } else if k > to {
        assert(all[k] == rest[k - 1]);
        assert(rest[k - 1] == s[if k - 1 < from {
            k - 1
        } else {
            k
        }]);
    } else {
        assert(all[k] == s[from]);
    }
}

/// Closing a pane leaves the session fit to be drawn, unless it goes away.
pub proof fn law_a_session_without_a_pane_stays_sound(s: SessionView, pane: PaneId)
    requires
        s.sound(),
        s.tabs.len() <= usize::MAX,
    ensures
        s.closing(pane).1 != CloseAction::SessionRemoved ==> s.closing(pane).0.sound(),
        !s.tabs[s.active as int].order.contains(pane) ==> (s.closing_in_background(
            pane,
        ) matches Some(after) ==> after.sound()),
{
    let t = s.tabs[s.active as int];
    if t.next_focus(pane) is Some {
        law_a_tab_without_a_pane_stays_sound(t, pane);
        lemma_tab_replaced(s, s.active as int, t.closed(pane));
    }
    lemma_tab_with(s.tabs, pane, 0);
    if let Some(i) = crate::session::tab_with(s.tabs, pane, 0) {
        if s.tabs[i].next_focus(pane) is Some {
            law_a_tab_without_a_pane_stays_sound(s.tabs[i], pane);
            lemma_tab_replaced(s, i, s.tabs[i].closed(pane));
        }
    }
}

// ---------------------------------------------------------------------------
// All sessions
// ---------------------------------------------------------------------------

/// One session replaced by another that is fit to be drawn, or gone: so are they all.
pub proof fn law_the_server_stays_sound(st: StateView, name: Seq<char>, s: SessionView)
    requires
        st.sound(),
    ensures
        s.sound() ==> st.with(name, s).sound(),
        st.without_session(name).sound(),
        (StateView { sessions: st.sessions.remove(name), ..st }).sound(),
{
}

/// Moving sessions and folders about leaves every session fit to be drawn.
pub proof fn law_filing_keeps_the_server_sound(
    st: StateView,
    session: Seq<char>,
    folder: Option<Seq<char>>,
    from: Seq<char>,
    to: Seq<char>,
)
    requires
        st.sound(),
    ensures
        st.sessions.contains_key(session) ==> st.session_filed(session, folder).sound(),
        st.sessions.contains_key(session) ==> st.session_renamed(session, to).sound(),
        st.folder_renamed(from, to).sound(),
{
    if st.sessions.contains_key(session) {
        assert(st.sessions[session].sound());
        let filed = SessionView { folder, ..st.sessions[session] };
        let named = SessionView { name: to, ..st.sessions[session] };
        assert(filed.sound());
        assert(named.sound());
    }
    let after = st.folder_renamed(from, to);
    assert forall|k: Seq<char>| #[trigger] after.sessions.contains_key(k) implies after.sessions[k].sound() by {
        assert(st.sessions.contains_key(k));
        assert(st.sessions[k].sound());
        assert(after.sessions[k] == refiled(st.sessions[k], from, to));
    }
}

/// Deleting a folder with its sessions leaves the others fit to be drawn.
pub proof fn law_a_cascade_keeps_the_server_sound(st: StateView, ids: Seq<Seq<char>>, n: int)
    requires
        st.sound(),
        0 <= n <= ids.len(),
    ensures
        cascaded(st, ids, n).0.sound(),
    decreases n,
{
    if n > 0 {
        law_a_cascade_keeps_the_server_sound(st, ids, n - 1);
    }
}

/// Nothing of a deleted folder's sessions is left behind: none of them is there any
/// more, and each one that was is reported with its panes.
pub proof fn law_a_deleted_folder_leaves_no_session(
    st: StateView,
    ids: Seq<Seq<char>>,
    n: int,
    i: int,
)
    requires
        0 <= i < n <= ids.len(),
    ensures
        !cascaded(st, ids, n).0.sessions.contains_key(ids[i]),
        st.sessions.contains_key(ids[i]) ==> exists|k: int|
            0 <= k < cascaded(st, ids, n).1.len() && (#[trigger] cascaded(st, ids, n).1[k]) == (
                ids[i],
                st.sessions[ids[i]].everything(),
            ),
    decreases n,
{
    let (left, gone) = cascaded(st, ids, n - 1);
    let (after, all) = cascaded(st, ids, n);
    lemma_cascade_takes(st, ids, n - 1, ids[i]);
    if i < n - 1 {
        law_a_deleted_folder_leaves_no_session(st, ids, n - 1, i);
        if st.sessions.contains_key(ids[i]) {
            let k = choose|k: int|
                0 <= k < gone.len() && (#[trigger] gone[k]) == (
                    ids[i],
                    st.sessions[ids[i]].everything(),
                );
            assert(all[k] == gone[k]);
        }
    } else if left.sessions.contains_key(ids[i]) {
        assert(all[all.len() - 1] == (ids[i], st.sessions[ids[i]].everything()));
    } else if st.sessions.contains_key(ids[i]) {
        let j = choose|j: int| 0 <= j < n - 1 && #[trigger] ids[j] == ids[i];
        law_a_deleted_folder_leaves_no_session(st, ids, n - 1, j);
        let k = choose|k: int|
            0 <= k < gone.len() && (#[trigger] gone[k]) == (
                ids[j],
                st.sessions[ids[j]].everything(),
            );
        assert(all[k] == gone[k]);
    }
}

/// A session stays as it is until its own name comes.
proof fn lemma_cascade_takes(st: StateView, ids: Seq<Seq<char>>, n: int, name: Seq<char>)
    requires
        0 <= n <= ids.len(),
    ensures
        ({
            let left = cascaded(st, ids, n).0;
            &&& left.sessions.contains_key(name) ==> st.sessions.contains_key(name)
                && left.sessions[name] == st.sessions[name]
            &&& st.sessions.contains_key(name) && !left.sessions.contains_key(name) ==> exists|
                j: int,
            | 0 <= j < n && #[trigger] ids[j] == name
        }),
    decreases n,
{
    if n > 0 {
        lemma_cascade_takes(st, ids, n - 1, name);
        let left = cascaded(st, ids, n - 1).0;
        if st.sessions.contains_key(name) && left.sessions.contains_key(name) && !cascaded(
            st,
            ids,
            n,
        ).0.sessions.contains_key(name) {
            assert(ids[n - 1] == name);
        }
    }
}

/// A new session is fit to be drawn.
pub proof fn law_a_new_session_keeps_the_server_sound(
    st: StateView,
    name: Seq<char>,
    folder: Option<Seq<char>>,
    style: BorderStyle,
    mode: LayoutMode,
    popup_size: (u16, u16),
)
    requires
        st.sound(),
        mode.valid(),
    ensures
        with_session(st, name, folder, style, mode, popup_size).sound(),
{
    law_a_fresh_tab_is_in_order(FIRST_TAB@, mode, st.next_pane);
}

/// Renaming a session and back gives the sessions that were there before.
pub proof fn law_renaming_back_restores_the_sessions(st: StateView, from: Seq<char>, to: Seq<char>)
    requires
        st.sessions.contains_key(from),
        st.sessions[from].name == from,
        !st.sessions.contains_key(to),
    ensures
        st.session_renamed(from, to).session_renamed(to, from).sessions == st.sessions,
{
    let back = st.session_renamed(from, to).session_renamed(to, from);
    assert(back.sessions[from] =~= st.sessions[from]);
    assert(back.sessions =~= st.sessions);
}

/// A shifted tab takes the shown one's place with it: the same tab is shown.
pub proof fn law_shifting_tabs_keeps_the_shown_one(s: SessionView, i: int, delta: int)
    requires
        s.active < s.tabs.len() <= usize::MAX,
        0 <= i < s.tabs.len(),
    ensures
        s.tab_shifted(i, delta).current() == s.current(),
{
    let to = shifted(i, delta, s.tabs.len() as int);
    let k = place_after_move(s.active as int, i, to);
    let rest = s.tabs.remove(i);
    let all = rest.insert(to, s.tabs[i]);
    assert(0 <= k < s.tabs.len());
    assert(all[k] == s.tabs[s.active as int]);
}

} // verus!
