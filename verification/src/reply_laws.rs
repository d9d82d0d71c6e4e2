//! What a client's message comes to, for the client and for the server.

use crate::client::ClientView;
use crate::command::GoneView;
use crate::effect_laws::{but_for_session, lemma_taken_out};
use crate::layout::PaneId;
use crate::message::{attached_to, killed, told, ClientMessage, Measure};
use crate::pointer::Surface;
use crate::session::SessionView;
use crate::state::{StateError, StateView};
use crate::tab::TabView;
use vstd::prelude::*;

verus! {

/// Two lists of clients that differ in one client's state at most.
pub open spec fn but_for_client(
    a: Seq<(u64, ClientView)>,
    b: Seq<(u64, ClientView)>,
    me: int,
) -> bool {
    &&& a.len() == b.len()
    &&& a[me].0 == b[me].0
    &&& forall|i: int| 0 <= i < a.len() && i != me ==> #[trigger] a[i] == b[i]
}

/// A client that attaches belongs to the session, whose tab that is shown is no longer
/// marked; nothing else changes but that the session is fitted to it and drawn for it. A
/// session that is not there is an error, and the client stays where it is.
pub proof fn law_a_client_attaches_to_what_is_there(
    name: Seq<char>,
    st: StateView,
    clients: Seq<(u64, ClientView)>,
    me: int,
)
    requires
        0 <= me < clients.len(),
        st.sessions.contains_key(name) ==> st.sessions[name].active
            < st.sessions[name].tabs.len(),
    ensures
        ({
            let t = attached_to(st, clients, me, name);
            if st.sessions.contains_key(name) {
                let x = st.sessions[name];
                let y = t.st.sessions[name];
                &&& but_for_client(clients, t.clients, me)
                &&& t.clients[me].1 == ClientView { session_name: Some(name), ..clients[me].1 }
                &&& but_for_session(st, t.st, name)
                &&& y == SessionView { tabs: y.tabs, ..x }
                &&& y.tabs == x.tabs.update(
                    x.active as int,
                    TabView {
                        activity: crate::config::TabActivity::Quiet,
                        ..x.tabs[x.active as int]
                    },
                )
                &&& t.reply.error is None
                &&& t.reply.plan.draw is Requester && t.reply.plan.resize
                    && t.reply.plan.invalidate && t.reply.plan.forward
            } else {
                &&& t.st == st && t.clients == clients
                &&& t.reply.error is Some
                &&& t.reply.plan.draw is Nobody
            }
        }),
{
    let t = attached_to(st, clients, me, name);
    if st.sessions.contains_key(name) {
        assert(t.st.sessions.dom() =~= st.sessions.dom());
    }
}

/// A session that is killed is gone, from its folder too; its panes go with it, and its
/// clients are detached. Nothing else changes. One that is not there is an error.
pub proof fn law_a_killed_session_is_gone(name: Seq<char>, st: StateView, f: Seq<char>)
    ensures
        ({
            let (after, plan) = killed(st, name);
            if st.sessions.contains_key(name) {
                let home = st.sessions[name].folder;
                &&& after.sessions == st.sessions.remove(name)
                &&& home == Some(f) && st.folders.contains_key(f)
                    ==> !after.folders[f].session_ids.contains(name)
                &&& home != Some(f) && st.folders.contains_key(f) ==> after.folders[f]
                    == st.folders[f]
                &&& plan.reap == st.sessions[name].everything()
                &&& plan.gone == GoneView::Dismiss(seq![name])
                &&& plan.failed is None
            } else {
                after == st && plan.failed == Some(StateError::NoSession)
            }
        }),
{
    if st.sessions.contains_key(name) {
        let home = st.sessions[name].folder;
        if home is Some && st.folders.contains_key(home->0) {
            lemma_taken_out(st.folders[home->0].session_ids, name);
        }
    }
}

/// The pane that has the client's input: the popup's while it is up, else the focused one of
/// the tab that its session shows.
pub open spec fn has_input(st: StateView, v: ClientView, p: PaneId) -> bool {
    &&& v.session_name is Some
    &&& st.sessions.contains_key(v.session_name->0)
    &&& {
        let s = st.sessions[v.session_name->0];
        if s.popup_visible && s.popup is Some {
            s.popup == Some(p)
        } else {
            s.active < s.tabs.len() && s.tabs[s.active as int].focused == p
        }
    }
}

/// What is typed goes to the pane with the input, byte by byte. With Ctrl-L in it the history
/// of the pane is dropped, unless a full-screen program is running there.
pub proof fn law_ctrl_l_drops_the_history(
    data: Vec<u8>,
    st: StateView,
    v: ClientView,
    surface: Surface,
    auto_yank: bool,
    p: PaneId,
)
    requires
        has_input(st, v, p),
        surface.screens@.contains_key(p),
    ensures
        ({
            let r = told(ClientMessage::Input { data }, st, v, surface, auto_yank).1;
            &&& r.plan.keys == Some((p, data@))
            &&& r.clear == (if data@.contains(12) && !surface.screens@[p].alt_screen_active {
                Some(p)
            } else {
                None
            })
        }),
{
}

/// A client whose terminal has another size has that size from then on, and its session is
/// fitted to it and drawn anew for everyone.
pub proof fn law_a_client_is_resized(
    cols: u16,
    rows: u16,
    st: StateView,
    v: ClientView,
    surface: Surface,
    auto_yank: bool,
)
    ensures
        ({
            let (w, r) = told(ClientMessage::Resize { cols, rows }, st, v, surface, auto_yank);
            &&& w == ClientView { cols, rows, ..v }
            &&& v.session_name matches Some(s) ==> r.plan.target == s && r.plan.resize
                && r.plan.invalidate && r.plan.draw is Everyone
        }),
{
}

/// A client that detaches belongs to no session and keeps everything else; the session tree
/// has changed by it, and what it watched is measured anew.
pub proof fn law_a_client_that_detaches_is_free(
    st: StateView,
    v: ClientView,
    surface: Surface,
    auto_yank: bool,
)
    ensures
        ({
            let (w, r) = told(ClientMessage::Detach, st, v, surface, auto_yank);
            &&& w == ClientView { session_name: None, ..v }
            &&& r.tree_changed && r.measure is Watched
        }),
{
}

/// The session tree is sent when it is asked for.
pub proof fn law_the_session_tree_is_sent_on_request(
    st: StateView,
    v: ClientView,
    surface: Surface,
    auto_yank: bool,
)
    ensures
        ({
            let (w, r) = told(ClientMessage::ListSessionTree, st, v, surface, auto_yank);
            r.send_tree && w == v
        }),
{
}

/// A client that subscribes to the session tree is sent it, and reads it from then on.
pub proof fn law_a_reader_of_the_tree_is_sent_it(
    st: StateView,
    v: ClientView,
    surface: Surface,
    auto_yank: bool,
)
    ensures
        ({
            let (w, r) = told(ClientMessage::SubscribeSessionTree, st, v, surface, auto_yank);
            r.send_tree && w == ClientView { session_tree_subscribed: true, ..v }
        }),
{
}

/// A client that unsubscribes from the session tree reads it no longer.
pub proof fn law_a_reader_of_the_tree_can_stop(
    st: StateView,
    v: ClientView,
    surface: Surface,
    auto_yank: bool,
)
    ensures
        ({
            let (w, r) = told(ClientMessage::UnsubscribeSessionTree, st, v, surface, auto_yank);
            !r.send_tree && w == ClientView { session_tree_subscribed: false, ..v }
        }),
{
}

/// Input for a pane by its id reaches that pane, whoever has the focus. If the pane is gone
/// the client hears of it.
pub proof fn law_input_for_a_pane_reaches_it(
    pane_id: PaneId,
    data: Vec<u8>,
    st: StateView,
    v: ClientView,
    surface: Surface,
    auto_yank: bool,
)
    ensures
        ({
            let (w, r) = told(
                ClientMessage::InputToPane { pane_id, data },
                st,
                v,
                surface,
                auto_yank,
            );
            let there = surface.screens@.contains_key(pane_id);
            &&& w == v
            &&& there ==> r.plan.keys == Some((pane_id, data@)) && r.exited is None
            &&& !there ==> r.plan.keys is None && r.exited == Some(pane_id)
        }),
{
}

/// A client that subscribes to a pane watches it, at the size that it asks for if it asks for
/// one; it is sent the pane, which is measured anew. A pane that is gone is reported as such
/// and is not watched.
pub proof fn law_a_subscriber_watches_the_pane(
    pane_id: PaneId,
    cols: u16,
    rows: u16,
    size_demand: bool,
    st: StateView,
    v: ClientView,
    surface: Surface,
    auto_yank: bool,
)
    ensures
        ({
            let (w, r) = told(
                ClientMessage::SubscribePane { pane_id, cols, rows, size_demand },
                st,
                v,
                surface,
                auto_yank,
            );
            if surface.screens@.contains_key(pane_id) {
                &&& w.subscribed_panes == v.subscribed_panes.insert(
                    pane_id,
                    if size_demand {
                        Some((cols, rows))
                    } else {
                        None
                    },
                )
                &&& r.stream == Some(pane_id)
                &&& r.measure == Measure::Pane(pane_id)
            } else {
                w == v && r.exited == Some(pane_id) && r.stream is None
            }
        }),
{
}

/// A client that unsubscribes from a pane no longer watches it, and the pane is measured
/// anew. What else it watches it goes on watching.
pub proof fn law_a_subscriber_can_stop(
    pane_id: PaneId,
    st: StateView,
    v: ClientView,
    surface: Surface,
    auto_yank: bool,
)
    ensures
        ({
            let (w, r) = told(
                ClientMessage::UnsubscribePane { pane_id },
                st,
                v,
                surface,
                auto_yank,
            );
            &&& w.subscribed_panes == v.subscribed_panes.remove(pane_id)
            &&& r.measure == Measure::Pane(pane_id)
        }),
{
}

/// The matches of a search are shown while there are any.
pub proof fn law_matches_are_shown_while_there_are_any(
    current: usize,
    total: usize,
    st: StateView,
    v: ClientView,
    surface: Surface,
    auto_yank: bool,
)
    ensures
        ({
            let w = told(
                ClientMessage::SearchInfo { current, total },
                st,
                v,
                surface,
                auto_yank,
            ).0;
            &&& total > 0 ==> w.search_info == Some((current, total))
            &&& total == 0 ==> w.search_info is None
        }),
{
}

/// A client is in the mode that it says, and its session is drawn anew; the matches of a
/// search are forgotten outside of the search mode.
pub proof fn law_a_mode_is_shown_to_everyone(
    mode: String,
    st: StateView,
    v: ClientView,
    surface: Surface,
    auto_yank: bool,
)
    ensures
        ({
            let (w, r) = told(ClientMessage::ModeChanged { mode }, st, v, surface, auto_yank);
            &&& w.mode == mode@
            &&& mode@ != "SEARCH"@ ==> w.search_info is None
            &&& mode@ == "SEARCH"@ ==> w.search_info == v.search_info
            &&& v.session_name matches Some(s) ==> r.plan.draw is Everyone && r.plan.target == s
        }),
{
}

} // verus!
