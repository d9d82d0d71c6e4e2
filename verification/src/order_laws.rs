//! Commands keep the server in order: every pane in one place, the popup's pane in no
//! tab, and every id given out once.

use crate::client::ClientView;
use crate::clients::watched;
use crate::command::{
    any_pane_closed, commanded, edited, layout_change, opened, organised, pane_closed, pane_placed,
    reached, reattached, steered, step_index, tab_closed, idle, RemuxCommand, SessionDefaults,
};
use crate::command_laws::countable;
use crate::edits::{cascaded, refiled, shifted, tab_name, TabChange};
use crate::layout::{opt_text, PaneId};
use crate::layout_modes::{BspLayout, LayoutMode};
use crate::session::{
    law_a_changed_tab_keeps_the_session_in_order, law_a_fresh_session_is_in_order,
    law_closing_a_pane_keeps_the_session_in_order,
    law_closing_in_background_keeps_the_session_in_order, law_the_popup_stays_out_of_the_layout,
    lemma_tab_with, moved, tab_with, CloseAction, SessionView,
};
use crate::state::{occurs, with_session, StateView, FIRST_TAB};
use crate::tab::{PanePlacement, TabView};
use crate::tab_laws::{
    law_a_fresh_tab_is_in_order, law_changing_the_layout_keeps_the_tab_in_order,
    law_closing_a_pane_keeps_the_tab_in_order, law_focus_and_zoom_keep_the_tab_in_order,
    law_placing_a_pane_keeps_the_tab_in_order, law_rearranging_keeps_the_tab_in_order,
};
use vstd::prelude::*;

verus! {

broadcast use vstd::seq_lib::group_to_multiset_ensures;

// ---------------------------------------------------------------------------
// Tabs and sessions
// ---------------------------------------------------------------------------

/// The change keeps to the tab's own panes, or brings in one that is new to it.
pub open spec fn fitting(t: TabView, c: TabChange) -> bool {
    match c {
        TabChange::Focus(p) => t.order.contains(p),
        TabChange::Place(_, p) => !t.order.contains(p),
        TabChange::Arrange(_) => false,
        TabChange::Show(_, _) => false,
        _ => true,
    }
}

/// The panes of the tab after a change.
pub open spec fn order_after(t: TabView, c: TabChange) -> Seq<PaneId> {
    match c {
        TabChange::Place(_, p) => t.order.push(p),
        _ => t.order,
    }
}

/// A fitting change keeps the tab in order. No pane goes, and only a placed one comes.
pub proof fn law_a_fitting_change_keeps_the_tab_in_order(t: TabView, c: TabChange)
    requires
        t.wf(),
        fitting(t, c),
    ensures
        t.changed(c).wf(),
        t.changed(c).order == order_after(t, c),
{
    match c {
        TabChange::Focus(p) => law_focus_and_zoom_keep_the_tab_in_order(t, p),
        TabChange::ToggleZoom => law_focus_and_zoom_keep_the_tab_in_order(t, t.focused),
        TabChange::Place(how, p) => law_placing_a_pane_keeps_the_tab_in_order(t, how, p),
        TabChange::Resize(direction, delta) => law_rearranging_keeps_the_tab_in_order(
            t,
            direction,
            delta as int,
            true,
            t.focused,
            t.name,
        ),
        TabChange::Turn(forward) => law_rearranging_keeps_the_tab_in_order(
            t,
            crate::layout::Direction::Vertical,
            0,
            forward,
            t.focused,
            t.name,
        ),
        TabChange::NamePane(p, name) => law_rearranging_keeps_the_tab_in_order(
            t,
            crate::layout::Direction::Vertical,
            0,
            true,
            p,
            name@,
        ),
        TabChange::NextLayout => law_changing_the_layout_keeps_the_tab_in_order(t),
        TabChange::SetMaster => law_changing_the_layout_keeps_the_tab_in_order(t),
        _ => {},
    }
}

/// `after` has no panes but those of `before`, and `extra`.
pub open spec fn no_more(after: SessionView, before: SessionView, extra: Option<PaneId>) -> bool {
    forall|p: PaneId| #[trigger] after.has(p) ==> before.has(p) || extra == Some(p)
}

/// In a session that is in order a pane occurs only where it belongs.
proof fn lemma_occurs(s: SessionView, p: PaneId)
    requires
        s.wf(),
    ensures
        occurs(s, p) == s.has(p),
{
    if occurs(s, p) && !s.has(p) {
        let i = choose|i: int|
            0 <= i < s.tabs.len() && #[trigger] s.tabs[i].layout.ids().contains(p);
        let t = s.tabs[i];
        assert(t.wf());
        t.layout.ids().to_multiset_ensures();
        t.order.to_multiset_ensures();
        assert(t.layout.ids().to_multiset().count(p) > 0);
        assert(t.order.contains(p));
    }
}

proof fn lemma_tab_changed(s: SessionView, i: int, c: TabChange)
    requires
        s.wf(),
        0 <= i < s.tabs.len(),
        fitting(s.tabs[i], c),
        c matches TabChange::Place(_, p) ==> !s.has(p),
    ensures
        s.with_tab(i, s.tabs[i].changed(c)).wf(),
        no_more(
            s.with_tab(i, s.tabs[i].changed(c)),
            s,
            match c {
                TabChange::Place(_, p) => Some(p),
                _ => None,
            },
        ),
{
    let t = s.tabs[i];
    let u = t.changed(c);
    law_a_fitting_change_keeps_the_tab_in_order(t, c);
    assert forall|p: PaneId| #[trigger] u.order.contains(p) implies t.order.contains(p) || (c
        matches TabChange::Place(_, q) && p == q) by {
        let k = choose|k: int| 0 <= k < u.order.len() && u.order[k] == p;
        if k < t.order.len() {
            assert(t.order[k] == p);
        }
    }
    law_a_changed_tab_keeps_the_session_in_order(s, i, u);
    let after = s.with_tab(i, u);
    assert forall|p: PaneId| #[trigger] after.has(p) implies s.has(p) || (c
        matches TabChange::Place(_, q) && p == q) by {
        if after.popup != Some(p) {
            let k = choose|k: int| 0 <= k < after.tabs.len() && #[trigger] after.tabs[k].order.contains(p);
            if k != i {
                assert(s.tabs[k].order.contains(p));
            } else if t.order.contains(p) {
                assert(s.tabs[i].order.contains(p));
            }
        }
    }
}

/// Moving a tab about keeps the session in order.
proof fn lemma_moved(s: SessionView, from: int, to: int, active: usize)
    requires
        s.wf(),
        0 <= from < s.tabs.len(),
        0 <= to < s.tabs.len(),
        active < s.tabs.len(),
    ensures
        (SessionView { tabs: moved(s.tabs, from, to), active, ..s }).wf(),
        no_more(SessionView { tabs: moved(s.tabs, from, to), active, ..s }, s, None),
{
    let after = SessionView { tabs: moved(s.tabs, from, to), active, ..s };
    let was = |k: int|
        if k == to {
            from
        } else {
            let m = if k < to {
                k
            } else {
                k - 1
            };
            if m < from {
                m
            } else {
                m + 1
            }
        };
    assert forall|k: int| 0 <= k < after.tabs.len() implies #[trigger] after.tabs[k] == s.tabs[was(
        k,
    )] && 0 <= was(k) < s.tabs.len() by {}
    assert forall|k: int, p: PaneId|
        0 <= k < after.tabs.len() && after.popup == Some(p) implies !(
    #[trigger] after.tabs[k].order.contains(p)) by {
        assert(after.tabs[k] == s.tabs[was(k)]);
        assert(!s.tabs[was(k)].order.contains(p));
    }
    assert forall|a: int, b: int, p: PaneId| 0 <= a < b < after.tabs.len() implies !(
    #[trigger] after.tabs[a].order.contains(p) && #[trigger] after.tabs[b].order.contains(p)) by {
        let x = was(a);
        let y = was(b);
        assert(after.tabs[a] == s.tabs[x] && after.tabs[b] == s.tabs[y]);
        assert(x != y);
        if x < y {
            assert(!(s.tabs[x].order.contains(p) && s.tabs[y].order.contains(p)));
        } else {
            assert(!(s.tabs[y].order.contains(p) && s.tabs[x].order.contains(p)));
        }
    }
    assert forall|p: PaneId| #[trigger] after.has(p) implies s.has(p) by {
        if after.popup != Some(p) {
            let k = choose|k: int| 0 <= k < after.tabs.len() && #[trigger] after.tabs[k].order.contains(p);
            assert(after.tabs[k] == s.tabs[was(k)]);
            assert(s.tabs[was(k)].order.contains(p));
        }
    }
}

proof fn lemma_shown(s: SessionView, i: int)
    requires
        s.wf(),
        0 <= i < s.tabs.len(),
        s.tabs.len() <= usize::MAX,
    ensures
        s.showing(i).wf(),
        no_more(s.showing(i), s, None),
        s.showing(i).tabs[i].order == s.tabs[i].order,
{
    let quiet = TabView { activity: crate::config::TabActivity::Quiet, ..s.tabs[i] };
    assert(s.tabs[i].wf());
    law_a_changed_tab_keeps_the_session_in_order(s, i, quiet);
    let after = s.showing(i);
    assert forall|p: PaneId| #[trigger] after.has(p) implies s.has(p) by {
        if after.popup != Some(p) {
            let k = choose|k: int| 0 <= k < after.tabs.len() && #[trigger] after.tabs[k].order.contains(p);
            assert(s.tabs[k].order.contains(p));
        }
    }
}

proof fn lemma_fewer(s: SessionView, i: int, active: usize)
    requires
        s.wf(),
        0 <= i < s.tabs.len(),
        active < s.tabs.len() - 1,
    ensures
        (SessionView { tabs: s.tabs.remove(i), active, ..s }).wf(),
        no_more(SessionView { tabs: s.tabs.remove(i), active, ..s }, s, None),
{
    crate::session::lemma_fewer_tabs(s, i, active);
    let after = SessionView { tabs: s.tabs.remove(i), active, ..s };
    assert forall|p: PaneId| #[trigger] after.has(p) implies s.has(p) by {
        if after.popup != Some(p) {
            let k = choose|k: int| 0 <= k < after.tabs.len() && #[trigger] after.tabs[k].order.contains(p);
            let kk = if k < i {
                k
            } else {
                k + 1
            };
            assert(after.tabs[k] == s.tabs[kk]);
            assert(s.tabs[kk].order.contains(p));
        }
    }
}

proof fn lemma_tab_added(s: SessionView, t: TabView, p: PaneId)
    requires
        s.wf(),
        s.tabs.len() <= usize::MAX,
        t.wf(),
        t.order == seq![p],
        !s.has(p),
    ensures
        s.with_new_tab(t).wf(),
        no_more(s.with_new_tab(t), s, Some(p)),
{
    let grown = s.with_new_tab(t);
    assert forall|q: PaneId| #[trigger] t.order.contains(q) implies q == p by {}
    assert forall|k: int| 0 <= k < grown.tabs.len() implies (#[trigger] grown.tabs[k]).wf() by {
        if k < s.tabs.len() {
            assert(grown.tabs[k] == s.tabs[k]);
        }
    }
    assert forall|k: int, q: PaneId|
        0 <= k < grown.tabs.len() && grown.popup == Some(q) implies !(
    #[trigger] grown.tabs[k].order.contains(q)) by {
        if k < s.tabs.len() {
            assert(!s.tabs[k].order.contains(q));
        } else {
            assert(s.has(q));
        }
    }
    assert forall|a: int, b: int, q: PaneId| 0 <= a < b < grown.tabs.len() implies !(
    #[trigger] grown.tabs[a].order.contains(q) && #[trigger] grown.tabs[b].order.contains(q)) by {
        if b < s.tabs.len() {
            assert(!(s.tabs[a].order.contains(q) && s.tabs[b].order.contains(q)));
        } else if s.tabs[a].order.contains(q) {
            assert(s.has(q));
        }
    }
    assert forall|q: PaneId| #[trigger] grown.has(q) implies s.has(q) || q == p by {
        if grown.popup != Some(q) {
            let k = choose|k: int| 0 <= k < grown.tabs.len() && #[trigger] grown.tabs[k].order.contains(q);
            if k < s.tabs.len() {
                assert(s.tabs[k].order.contains(q));
            }
        }
    }
}

proof fn lemma_popup(s: SessionView, fresh: PaneId)
    requires
        s.wf(),
        !s.has(fresh),
    ensures
        s.popup_toggled(fresh).wf(),
        no_more(s.popup_toggled(fresh), s, Some(fresh)),
        s.restyled().wf(),
        no_more(s.restyled(), s, None),
        s.no_popup().wf(),
        no_more(s.no_popup(), s, None),
{
    law_the_popup_stays_out_of_the_layout(s, fresh);
    let up = s.popup_toggled(fresh);
    assert forall|p: PaneId| #[trigger] up.has(p) implies s.has(p) || p == fresh by {
        if up.popup != Some(p) {
            let k = choose|k: int| 0 <= k < up.tabs.len() && #[trigger] up.tabs[k].order.contains(p);
            assert(s.tabs[k].order.contains(p));
        }
    }
    let r = s.restyled();
    assert forall|p: PaneId| #[trigger] r.has(p) implies s.has(p) by {
        if r.popup != Some(p) {
            let k = choose|k: int| 0 <= k < r.tabs.len() && #[trigger] r.tabs[k].order.contains(p);
            assert(s.tabs[k].order.contains(p));
        }
    }
    let n = s.no_popup();
    assert forall|p: PaneId| #[trigger] n.has(p) implies s.has(p) by {
        let k = choose|k: int| 0 <= k < n.tabs.len() && #[trigger] n.tabs[k].order.contains(p);
        assert(s.tabs[k].order.contains(p));
    }
}

/// A pane gone from a tab that keeps others.
proof fn lemma_closed_in(s: SessionView, i: int, pane: PaneId)
    requires
        s.wf(),
        0 <= i < s.tabs.len(),
        s.tabs[i].order.contains(pane),
        s.tabs[i].next_focus(pane) is Some,
    ensures
        s.with_tab(i, s.tabs[i].closed(pane)).wf(),
        no_more(s.with_tab(i, s.tabs[i].closed(pane)), s, None),
{
    let t = s.tabs[i];
    assert(t.wf());
    law_closing_a_pane_keeps_the_tab_in_order(t, pane);
    let u = t.closed(pane);
    assert forall|p: PaneId| #[trigger] u.order.contains(p) implies t.order.contains(p) by {
        if p != pane {
            assert(u.order.contains(p) == t.order.contains(p));
        }
    }
    law_a_changed_tab_keeps_the_session_in_order(s, i, u);
    let after = s.with_tab(i, u);
    assert forall|p: PaneId| #[trigger] after.has(p) implies s.has(p) by {
        if after.popup != Some(p) {
            let k = choose|k: int| 0 <= k < after.tabs.len() && #[trigger] after.tabs[k].order.contains(p);
            if k == i {
                assert(u.order.contains(p));
                assert(t.order.contains(p));
            }
            assert(s.tabs[k].order.contains(p));
        }
    }
}

proof fn lemma_closing(s: SessionView, pane: PaneId, fresh: PaneId)
    requires
        s.wf(),
        s.tabs.len() <= usize::MAX,
        !s.has(fresh),
    ensures
        s.closing(pane).1 != CloseAction::SessionRemoved ==> s.closing(pane).0.wf() && no_more(
            s.closing(pane).0,
            s,
            None,
        ),
        !s.tabs[s.active as int].order.contains(pane) ==> (s.closing_in_background(
            pane,
        ) matches Some(after) ==> after.wf() && no_more(after, s, None)),
{
    law_closing_a_pane_keeps_the_session_in_order(s, pane);
    lemma_popup(s, fresh);
    let t = s.tabs[s.active as int];
    if s.popup != Some(pane) && t.order.contains(pane) {
        if t.next_focus(pane) is Some {
            lemma_closed_in(s, s.active as int, pane);
        } else if s.tabs.len() > 1 {
            lemma_fewer(s, s.active as int, s.without_tab(s.active as int).active);
        }
    }
    if !t.order.contains(pane) {
        law_closing_in_background_keeps_the_session_in_order(s, pane);
        lemma_tab_with(s.tabs, pane, 0);
        if let Some(i) = tab_with(s.tabs, pane, 0) {
            if s.tabs[i].next_focus(pane) is Some {
                lemma_closed_in(s, i, pane);
            } else {
                lemma_fewer(s, i, s.closing_in_background(pane)->0.active);
            }
        }
    }
}

// ---------------------------------------------------------------------------
// All sessions
// ---------------------------------------------------------------------------

/// An id that is not given out yet occurs nowhere.
pub proof fn law_a_new_id_is_new(st: StateView, s: Seq<char>)
    requires
        st.wf(),
        st.next_pane < u64::MAX,
        st.sessions.contains_key(s),
    ensures
        !st.sessions[s].has(st.next_pane),
{
    if st.sessions[s].has(st.next_pane) {
        assert(occurs(st.sessions[s], st.next_pane));
    }
}

/// One session replaced by another with no panes but its own, and the one whose id was
/// given out.
proof fn lemma_replaced(st: StateView, s: Seq<char>, x: SessionView, taken: bool)
    requires
        st.wf(),
        st.next_pane < u64::MAX,
        st.sessions.contains_key(s),
        x.wf(),
        no_more(
            x,
            st.sessions[s],
            if taken {
                Some(st.next_pane)
            } else {
                None
            },
        ),
    ensures
        (StateView {
            next_pane: if taken {
                (st.next_pane + 1) as u64
            } else {
                st.next_pane
            },
            ..st.with(s, x)
        }).wf(),
{
    let next = if taken {
        (st.next_pane + 1) as u64
    } else {
        st.next_pane
    };
    let after = StateView { next_pane: next, ..st.with(s, x) };
    assert forall|k: Seq<char>, p: PaneId|
        #![trigger after.sessions.contains_key(k), occurs(after.sessions[k], p)]
        after.sessions.contains_key(k) && occurs(after.sessions[k], p) implies p < next || next
        == u64::MAX by {
        if k == s {
            lemma_occurs(x, p);
            assert(x.has(p));
            if st.sessions[s].has(p) {
                assert(occurs(st.sessions[s], p));
            }
        } else {
            assert(st.sessions.contains_key(k));
            assert(occurs(st.sessions[k], p));
        }
    }
}

/// The state with an id given out to nobody.
proof fn lemma_id_lost(st: StateView)
    requires
        st.wf(),
        st.next_pane < u64::MAX,
    ensures
        (StateView { next_pane: (st.next_pane + 1) as u64, ..st }).wf(),
{
    let after = StateView { next_pane: (st.next_pane + 1) as u64, ..st };
    assert forall|k: Seq<char>, p: PaneId|
        #![trigger after.sessions.contains_key(k), occurs(after.sessions[k], p)]
        after.sessions.contains_key(k) && occurs(after.sessions[k], p) implies p < after.next_pane
        || after.next_pane == u64::MAX by {
        assert(st.sessions.contains_key(k));
        assert(occurs(st.sessions[k], p));
    }
}

/// Fewer sessions, and other folders.
proof fn lemma_subset(st: StateView, after: StateView)
    requires
        st.wf(),
        after.next_pane == st.next_pane,
        forall|k: Seq<char>| #[trigger]
            after.sessions.contains_key(k) ==> exists|j: Seq<char>| #[trigger]
                st.sessions.contains_key(j) && after.sessions[k].tabs == st.sessions[j].tabs
                    && after.sessions[k].active == st.sessions[j].active && after.sessions[k].popup
                    == st.sessions[j].popup,
    ensures
        after.wf(),
{
    assert forall|k: Seq<char>| #[trigger] after.sessions.contains_key(k) implies after.sessions[k].wf() by {
        let j = choose|j: Seq<char>| #[trigger]
            st.sessions.contains_key(j) && after.sessions[k].tabs == st.sessions[j].tabs
                && after.sessions[k].active == st.sessions[j].active && after.sessions[k].popup
                == st.sessions[j].popup;
        let a = after.sessions[k];
        let b = st.sessions[j];
        assert(b.wf());
        assert forall|i: int, p: PaneId| 0 <= i < a.tabs.len() && a.popup == Some(p) implies !(
        #[trigger] a.tabs[i].order.contains(p)) by {
            assert(!b.tabs[i].order.contains(p));
        }
        assert forall|i: int, jj: int, p: PaneId| 0 <= i < jj < a.tabs.len() implies !(
        #[trigger] a.tabs[i].order.contains(p) && #[trigger] a.tabs[jj].order.contains(p)) by {
            assert(!(b.tabs[i].order.contains(p) && b.tabs[jj].order.contains(p)));
        }
    }
    assert forall|k: Seq<char>, p: PaneId|
        #![trigger after.sessions.contains_key(k), occurs(after.sessions[k], p)]
        after.sessions.contains_key(k) && occurs(after.sessions[k], p) implies p < after.next_pane
        || after.next_pane == u64::MAX by {
        let j = choose|j: Seq<char>| #[trigger]
            st.sessions.contains_key(j) && after.sessions[k].tabs == st.sessions[j].tabs
                && after.sessions[k].active == st.sessions[j].active && after.sessions[k].popup
                == st.sessions[j].popup;
        let a = after.sessions[k];
        let b = st.sessions[j];
        if a.has(p) {
            if a.popup != Some(p) {
                let i = choose|i: int| 0 <= i < a.tabs.len() && #[trigger] a.tabs[i].order.contains(p);
                assert(b.tabs[i].order.contains(p));
            }
            assert(b.has(p));
        } else {
            let i = choose|i: int|
                0 <= i < a.tabs.len() && #[trigger] a.tabs[i].layout.ids().contains(p);
            assert(b.tabs[i].layout.ids().contains(p));
        }
        assert(occurs(b, p));
    }
}

proof fn lemma_steps(st: StateView, s: Seq<char>, i: int, c: TabChange, number: usize, delta: int)
    requires
        st.wf(),
        st.next_pane < u64::MAX,
        countable(st),
        st.sessions.contains_key(s),
        0 <= i < st.sessions[s].tabs.len(),
        !(c is Place),
        fitting(st.sessions[s].tabs[i], c),
    ensures
        st.tab_changed(s, i, c).wf(),
        st.with(s, st.sessions[s].showing(i)).wf(),
        st.sessions[s].tabs.len() > 1 ==> st.with(s, st.sessions[s].without_tab(i)).wf(),
        st.without_session(s).wf(),
        st.with(s, st.sessions[s].tab_moved(number)).wf(),
        st.with(s, st.sessions[s].tab_shifted(i, delta)).wf(),
        st.tab_added(s, LayoutMode::Bsp(BspLayout)).wf(),
        st.with(s, st.sessions[s].restyled()).wf(),
        st.popup_toggled(s).wf(),
{
    let x = st.sessions[s];
    assert(x.wf());
    law_a_new_id_is_new(st, s);
    lemma_tab_changed(x, i, c);
    lemma_replaced(st, s, x.with_tab(i, x.tabs[i].changed(c)), false);
    lemma_shown(x, i);
    lemma_replaced(st, s, x.showing(i), false);
    if x.tabs.len() > 1 {
        lemma_fewer(x, i, x.without_tab(i).active);
        lemma_replaced(st, s, x.without_tab(i), false);
    }
    lemma_subset(st, st.without_session(s));
    let place = x.tab_place(number);
    if x.active != place {
        lemma_moved(x, x.active as int, place, place as usize);
        lemma_replaced(st, s, x.tab_moved(number), false);
    } else {
        assert(st.with(s, x).sessions =~= st.sessions);
    }
    let to = shifted(i, delta, x.tabs.len() as int);
    lemma_moved(x, i, to, x.tab_shifted(i, delta).active);
    lemma_replaced(st, s, x.tab_shifted(i, delta), false);
    let t = TabView::fresh(tab_name(x.tabs.len()), LayoutMode::Bsp(BspLayout), st.next_pane);
    law_a_fresh_tab_is_in_order(
        tab_name(x.tabs.len()),
        LayoutMode::Bsp(BspLayout),
        st.next_pane,
    );
    lemma_tab_added(x, t, st.next_pane);
    lemma_replaced(st, s, x.with_new_tab(t), true);
    lemma_popup(x, st.next_pane);
    lemma_replaced(st, s, x.restyled(), false);
    if x.popup is None {
        lemma_replaced(st, s, x.popup_toggled(st.next_pane), true);
    } else {
        let up = x.popup_toggled(st.next_pane);
        assert forall|p: PaneId| #[trigger] up.has(p) implies x.has(p) by {
            if up.popup != Some(p) {
                let k = choose|k: int| 0 <= k < up.tabs.len() && #[trigger] up.tabs[k].order.contains(p);
                assert(x.tabs[k].order.contains(p));
            }
        }
        lemma_replaced(st, s, up, false);
    }
}

proof fn lemma_pane_placed(st: StateView, s: Seq<char>, i: Option<usize>, how: PanePlacement)
    requires
        st.wf(),
        st.next_pane < u64::MAX,
    ensures
        pane_placed(st, s, i, how).wf(),
{
    lemma_id_lost(st);
    match st.tab_at(s, i) {
        Some(k) => {
            let x = st.sessions[s];
            assert(x.wf());
            law_a_new_id_is_new(st, s);
            let c = TabChange::Place(how, st.next_pane);
            assert(!x.tabs[k].order.contains(st.next_pane)) by {
                if x.tabs[k].order.contains(st.next_pane) {
                    assert(x.has(st.next_pane));
                }
            }
            lemma_tab_changed(x, k, c);
            lemma_replaced(st, s, x.with_tab(k, x.tabs[k].changed(c)), true);
            let next = StateView { next_pane: (st.next_pane + 1) as u64, ..st };
            assert(next.tab_changed(s, k, c) =~= (StateView {
                next_pane: (st.next_pane + 1) as u64,
                ..st.with(s, x.with_tab(k, x.tabs[k].changed(c)))
            }));
        },
        None => {},
    }
}

proof fn lemma_pane_gone(st: StateView, s: Seq<char>, pane: PaneId, seen: bool)
    requires
        st.wf(),
        st.next_pane < u64::MAX,
        countable(st),
    ensures
        pane_closed(st, s, pane).0.wf(),
        any_pane_closed(st, s, pane, seen).0.wf(),
{
    if st.sessions.contains_key(s) {
        let x = st.sessions[s];
        assert(x.wf());
        law_a_new_id_is_new(st, s);
        lemma_closing(x, pane, st.next_pane);
        lemma_subset(st, StateView { sessions: st.sessions.remove(s), ..st });
        if x.closing(pane).1 == CloseAction::Broadcast {
            lemma_replaced(st, s, x.closing(pane).0, false);
        }
        if !x.tabs[x.active as int].order.contains(pane) {
            if let Some(after) = x.closing_in_background(pane) {
                lemma_replaced(st, s, after, false);
            }
        }
    }
}

proof fn lemma_tab_gone(st: StateView, s: Seq<char>, k: int)
    requires
        st.wf(),
        st.next_pane < u64::MAX,
        countable(st),
        st.sessions.contains_key(s),
        0 <= k < st.sessions[s].tabs.len(),
    ensures
        tab_closed(st, s, k, idle(s)).0.wf(),
{
    lemma_steps(st, s, k, TabChange::NextLayout, 0, 0);
}

proof fn lemma_edited(c: RemuxCommand, s: Seq<char>, st: StateView)
    requires
        st.wf(),
        st.next_pane < u64::MAX,
        countable(st),
    ensures
        edited(c, s, st).0.wf(),
{
    if st.sessions.contains_key(s) {
        let x = st.sessions[s];
        assert(x.wf());
        let k = x.active as int;
        match c {
            RemuxCommand::PaneStackNext => lemma_steps(st, s, k, TabChange::Turn(true), 0, 0),
            RemuxCommand::PaneStackPrev => lemma_steps(st, s, k, TabChange::Turn(false), 0, 0),
            RemuxCommand::Resize(d, a) => lemma_steps(st, s, k, layout_change(d, a), 0, 0),
            RemuxCommand::LayoutNext => lemma_steps(st, s, k, TabChange::NextLayout, 0, 0),
            RemuxCommand::SetMaster => lemma_steps(st, s, k, TabChange::SetMaster, 0, 0),
            RemuxCommand::PaneToggleZoom => lemma_steps(st, s, k, TabChange::ToggleZoom, 0, 0),
            RemuxCommand::PaneRename(name) => {
                let quiet = st.with(s, SessionView { renaming: None, ..x });
                assert forall|j: Seq<char>| #[trigger]
                    quiet.sessions.contains_key(j) implies exists|i: Seq<char>| #[trigger]
                    st.sessions.contains_key(i) && quiet.sessions[j].tabs == st.sessions[i].tabs
                        && quiet.sessions[j].active == st.sessions[i].active
                        && quiet.sessions[j].popup == st.sessions[i].popup by {
                    assert(st.sessions.contains_key(j));
                }
                lemma_subset(st, quiet);
                assert(countable(quiet));
                lemma_steps(quiet, s, k, TabChange::NamePane(x.tabs[k].focused, name), 0, 0);
            },
            RemuxCommand::TabRename(name) => lemma_steps(st, s, k, TabChange::NameTab(name), 0, 0),
            RemuxCommand::TabMove(number) => lemma_steps(
                st,
                s,
                k,
                TabChange::NextLayout,
                number,
                0,
            ),
            _ => lemma_steps(st, s, k, TabChange::NextLayout, 0, 0),
        }
    }
}

proof fn lemma_new_session(st: StateView, name: Seq<char>, folder: Option<Seq<char>>, d: SessionDefaults)
    requires
        st.wf(),
        st.next_pane < u64::MAX,
        d.layout_mode.valid(),
        !st.sessions.contains_key(name),
    ensures
        with_session(st, name, folder, d.border_style, d.layout_mode, d.popup_size).wf(),
{
    let t = TabView::fresh(FIRST_TAB@, d.layout_mode, st.next_pane);
    law_a_fresh_tab_is_in_order(FIRST_TAB@, d.layout_mode, st.next_pane);
    law_a_fresh_session_is_in_order(name, folder, d.border_style, t, d.popup_size);
    let x = SessionView::fresh(name, folder, d.border_style, t, d.popup_size);
    let after = with_session(st, name, folder, d.border_style, d.layout_mode, d.popup_size);
    assert forall|k: Seq<char>, p: PaneId|
        #![trigger after.sessions.contains_key(k), occurs(after.sessions[k], p)]
        after.sessions.contains_key(k) && occurs(after.sessions[k], p) implies p < after.next_pane
        || after.next_pane == u64::MAX by {
        if k == name {
            lemma_occurs(x, p);
            assert(x.tabs[0].order.contains(p));
            assert(p == st.next_pane);
        } else {
            assert(st.sessions.contains_key(k));
            assert(occurs(st.sessions[k], p));
        }
    }
}

proof fn lemma_opened(
    c: RemuxCommand,
    s: Seq<char>,
    cols: u16,
    rows: u16,
    st: StateView,
    d: SessionDefaults,
)
    requires
        st.wf(),
        st.next_pane < u64::MAX,
        countable(st),
        d.layout_mode.valid(),
    ensures
        opened(c, s, cols, rows, st, d).0.wf(),
{
    lemma_pane_placed(st, s, None, PanePlacement::SplitVertical);
    lemma_pane_placed(st, s, None, PanePlacement::SplitHorizontal);
    lemma_pane_placed(st, s, None, PanePlacement::Stack);
    lemma_pane_placed(st, s, None, PanePlacement::Auto);
    if st.sessions.contains_key(s) {
        assert(st.sessions[s].wf());
        lemma_steps(st, s, st.sessions[s].active as int, TabChange::NextLayout, 0, 0);
    }
    match c {
        RemuxCommand::SessionNew { name, folder } => {
            if !st.sessions.contains_key(name@) {
                lemma_new_session(st, name@, opt_text(folder), d);
            }
        },
        _ => {},
    }
}

proof fn lemma_steered(c: RemuxCommand, s: Seq<char>, cols: u16, rows: u16, st: StateView)
    requires
        st.wf(),
        st.next_pane < u64::MAX,
        countable(st),
    ensures
        steered(c, s, cols, rows, st).0.wf(),
{
    if st.sessions.contains_key(s) {
        let x = st.sessions[s];
        assert(x.wf());
        match c {
            RemuxCommand::TabClose => lemma_tab_gone(st, s, x.active as int),
            RemuxCommand::TabGoto(i) => if i < x.tabs.len() {
                lemma_steps(st, s, i as int, TabChange::NextLayout, 0, 0);
            },
            RemuxCommand::TabNext => {
                let i = step_index(st, s, true);
                if i < x.tabs.len() {
                    lemma_steps(st, s, i as int, TabChange::NextLayout, 0, 0);
                }
            },
            RemuxCommand::TabPrev => {
                let i = step_index(st, s, false);
                if i < x.tabs.len() {
                    lemma_steps(st, s, i as int, TabChange::NextLayout, 0, 0);
                }
            },
            RemuxCommand::PaneClose => {
                if x.target() is Some {
                    lemma_pane_gone(st, s, x.target()->0, true);
                }
            },
            _ => {},
        }
    }
}

proof fn lemma_cascade_kept(st: StateView, ids: Seq<Seq<char>>, n: int, k: Seq<char>)
    requires
        0 <= n <= ids.len(),
    ensures
        cascaded(st, ids, n).0.next_pane == st.next_pane,
        cascaded(st, ids, n).0.sessions.contains_key(k) ==> st.sessions.contains_key(k)
            && cascaded(st, ids, n).0.sessions[k] == st.sessions[k],
    decreases n,
{
    if n > 0 {
        lemma_cascade_kept(st, ids, n - 1, k);
    }
}

proof fn lemma_organised(c: RemuxCommand, s: Seq<char>, st: StateView)
    requires
        st.wf(),
    ensures
        organised(c, s, st).0.wf(),
{
    let after = organised(c, s, st).0;
    match c {
        RemuxCommand::FolderDelete(name) => {
            let bare = StateView { folders: st.folders.remove(name@), ..st };
            let ids = st.folders[name@].session_ids;
            lemma_cascade_kept(bare, ids, ids.len() as int, Seq::empty());
            assert forall|k: Seq<char>| #[trigger]
                after.sessions.contains_key(k) implies st.sessions.contains_key(k)
                && after.sessions[k] == st.sessions[k] by {
                lemma_cascade_kept(bare, ids, ids.len() as int, k);
            }
        },
        RemuxCommand::FolderMoveSession { session, folder } => {
            assert forall|k: Seq<char>| #[trigger] after.sessions.contains_key(k) implies exists|
                j: Seq<char>,
            | #[trigger]
                st.sessions.contains_key(j) && after.sessions[k].tabs == st.sessions[j].tabs
                    && after.sessions[k].active == st.sessions[j].active && after.sessions[k].popup
                    == st.sessions[j].popup by {
                assert(st.sessions.contains_key(k));
            }
        },
        RemuxCommand::FolderRename { from, to } => {
            assert forall|k: Seq<char>| #[trigger] after.sessions.contains_key(k) implies exists|
                j: Seq<char>,
            | #[trigger]
                st.sessions.contains_key(j) && after.sessions[k].tabs == st.sessions[j].tabs
                    && after.sessions[k].active == st.sessions[j].active && after.sessions[k].popup
                    == st.sessions[j].popup by {
                assert(st.sessions.contains_key(k));
                if st.folders.contains_key(from@) && !st.folders.contains_key(to@) {
                    assert(after.sessions[k] == refiled(st.sessions[k], from@, to@));
                }
            }
        },
        _ => {},
    }
    lemma_subset(st, after);
}

/// A command that moves the focus to a pane names one of the tab that it shows.
pub open spec fn names_own_pane(c: RemuxCommand, st: StateView) -> bool {
    match c {
        RemuxCommand::SessionSwitchPane { session, tab_index, pane_id } => {
            st.tab_at(session@, Some(tab_index)) matches Some(k)
                ==> st.sessions[session@].tabs[k].order.contains(pane_id)
        },
        _ => true,
    }
}

proof fn lemma_session_renamed(st: StateView, from: Seq<char>, to: Seq<char>)
    requires
        st.wf(),
        st.sessions.contains_key(from),
    ensures
        st.session_renamed(from, to).wf(),
{
    let after = st.session_renamed(from, to);
    assert forall|k: Seq<char>| #[trigger] after.sessions.contains_key(k) implies exists|
        j: Seq<char>,
    | #[trigger]
        st.sessions.contains_key(j) && after.sessions[k].tabs == st.sessions[j].tabs
            && after.sessions[k].active == st.sessions[j].active && after.sessions[k].popup
            == st.sessions[j].popup by {
        if k == to {
            assert(st.sessions.contains_key(from));
        } else {
            assert(st.sessions.contains_key(k));
        }
    }
    lemma_subset(st, after);
}

proof fn lemma_reattached(
    c: RemuxCommand,
    s: Seq<char>,
    st: StateView,
    clients: Seq<(u64, ClientView)>,
    me: int,
)
    requires
        st.wf(),
        st.next_pane < u64::MAX,
        countable(st),
        names_own_pane(c, st),
    ensures
        reattached(c, s, st, clients, me).st.wf(),
{
    match c {
        RemuxCommand::SessionRename(name) => {
            if st.sessions.contains_key(s) {
                lemma_session_renamed(st, s, name@);
            }
        },
        RemuxCommand::SessionRenameByName { from, to } => {
            if st.sessions.contains_key(from@) {
                lemma_session_renamed(st, from@, to@);
            }
        },
        RemuxCommand::SessionSwitchTab { session, tab_index } => {
            if let Some(k) = st.tab_at(session@, Some(tab_index)) {
                lemma_steps(st, session@, k, TabChange::NextLayout, 0, 0);
            }
        },
        RemuxCommand::SessionSwitchPane { session, tab_index, pane_id } => {
            if let Some(k) = st.tab_at(session@, Some(tab_index)) {
                assert(st.sessions[session@].wf());
                lemma_steps(st, session@, k, TabChange::NextLayout, 0, 0);
                lemma_shown(st.sessions[session@], k);
                let shown = st.with(session@, st.sessions[session@].showing(k));
                assert(countable(shown));
                lemma_steps(shown, session@, k, TabChange::Focus(pane_id), 0, 0);
            }
        },
        _ => {},
    }
}

proof fn lemma_reached(c: RemuxCommand, st: StateView, clients: Seq<(u64, ClientView)>)
    requires
        st.wf(),
        st.next_pane < u64::MAX,
        countable(st),
    ensures
        reached(c, st, clients).0.wf(),
{
    match c {
        RemuxCommand::TabCloseByIndex { session, tab_index } => {
            if let Some(k) = st.tab_at(session@, Some(tab_index)) {
                lemma_tab_gone(st, session@, k);
            }
        },
        RemuxCommand::TabNewInSession { session } => {
            if st.sessions.contains_key(session@) {
                assert(st.sessions[session@].wf());
                lemma_steps(
                    st,
                    session@,
                    st.sessions[session@].active as int,
                    TabChange::NextLayout,
                    0,
                    0,
                );
            }
        },
        RemuxCommand::TabRenameByIndex { session, tab_index, name } => {
            if let Some(k) = st.tab_at(session@, Some(tab_index)) {
                lemma_steps(st, session@, k, TabChange::NameTab(name), 0, 0);
            }
        },
        RemuxCommand::PaneNewInTab { session, tab_index } => {
            lemma_pane_placed(st, session@, Some(tab_index), PanePlacement::Auto);
        },
        RemuxCommand::PaneCloseById { session, pane_id } => {
            lemma_pane_gone(st, session@, pane_id, watched(clients, session@));
        },
        RemuxCommand::PaneRenameById { session, pane_id, name } => {
            if st.sessions.contains_key(session@) {
                lemma_tab_with(st.sessions[session@].tabs, pane_id, 0);
                if let Some(k) = tab_with(st.sessions[session@].tabs, pane_id, 0) {
                    lemma_steps(st, session@, k, TabChange::NamePane(pane_id, name), 0, 0);
                }
            }
        },
        RemuxCommand::TabMoveByIndex { session, tab_index, delta } => {
            if let Some(k) = st.tab_at(session@, Some(tab_index)) {
                lemma_steps(st, session@, k, TabChange::NextLayout, 0, delta as int);
            }
        },
        _ => {},
    }
}

/// Every command keeps the server in order: each tab's arrangement holds exactly its
/// panes, no pane is in two places, the popup's pane is in no tab, and every id is below
/// the next one.
#[verifier::spinoff_prover]
#[verifier::rlimit(60)]
pub proof fn law_a_command_keeps_the_server_in_order(
    c: RemuxCommand,
    st: StateView,
    clients: Seq<(u64, ClientView)>,
    me: int,
    d: SessionDefaults,
)
    requires
        st.wf(),
        st.next_pane < u64::MAX,
        countable(st),
        d.layout_mode.valid(),
        names_own_pane(c, st),
    ensures
        commanded(c, st, clients, me, d).st.wf(),
{
    let v = clients[me].1;
    let s = match v.session_name {
        Some(s) => s,
        None => Seq::empty(),
    };
    lemma_edited(c, s, st);
    lemma_opened(c, s, v.cols, v.rows, st, d);
    lemma_steered(c, s, v.cols, v.rows, st);
    lemma_organised(c, s, st);
    lemma_reattached(c, s, st, clients, me);
    lemma_reached(c, st, clients);
}

} // verus!
