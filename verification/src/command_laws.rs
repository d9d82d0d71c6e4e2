//! What holds of every command.

use crate::client::ClientView;
use crate::command::{
    any_pane_closed, commanded, edited, idle, layout_change, names_its_target, opened, organised,
    pane_closed, pane_placed, reached, reattached, session_renamed, steered, step_index, switched,
    tab_closed, works_on_layout, RemuxCommand, SessionDefaults,
};
use crate::edit_laws::{
    law_a_cascade_keeps_the_server_sound, law_a_new_session_keeps_the_server_sound,
    law_a_session_stays_sound, law_a_session_without_a_pane_stays_sound,
    law_filing_keeps_the_server_sound, law_the_server_stays_sound,
};
use crate::edits::{tab_name, TabChange};
use crate::layout::{opt_text, PaneId};
use crate::layout_modes::{BspLayout, LayoutMode};
use crate::session::SessionView;
use crate::state::StateView;
use crate::tab::{sound_tree, PanePlacement, TabView};
use vstd::prelude::*;

verus! {

/// No session has more tabs than can be counted.
pub open spec fn countable(st: StateView) -> bool {
    forall|k: Seq<char>| #[trigger]
        st.sessions.contains_key(k) ==> st.sessions[k].tabs.len() <= usize::MAX
}

// ---------------------------------------------------------------------------
// Every session stays fit to be drawn
// ---------------------------------------------------------------------------

/// The changes that a single session goes through leave it sound.
proof fn lemma_tab_steps(
    st: StateView,
    s: Seq<char>,
    i: int,
    c: TabChange,
    number: usize,
    delta: int,
)
    requires
        st.sound(),
        countable(st),
        st.sessions.contains_key(s),
        0 <= i < st.sessions[s].tabs.len(),
        c matches TabChange::Arrange(n) ==> sound_tree(n@),
        c matches TabChange::Show(n, _) ==> sound_tree(n@),
    ensures
        st.tab_changed(s, i, c).sound(),
        st.with(s, st.sessions[s].showing(i)).sound(),
        st.sessions[s].tabs.len() > 1 ==> st.with(s, st.sessions[s].without_tab(i)).sound(),
        st.with(s, st.sessions[s].tab_moved(number)).sound(),
        st.with(s, st.sessions[s].tab_shifted(i, delta)).sound(),
        st.tab_added(s, LayoutMode::Bsp(BspLayout)).sound(),
        st.with(s, st.sessions[s].restyled()).sound(),
        st.popup_toggled(s).sound(),
{
    let x = st.sessions[s];
    assert(x.sound());
    let mode = LayoutMode::Bsp(BspLayout);
    law_a_session_stays_sound(
        x,
        i,
        c,
        number,
        delta,
        mode,
        tab_name(x.tabs.len()),
        st.next_pane,
    );
    law_the_server_stays_sound(st, s, x.with_tab(i, x.tabs[i].changed(c)));
    law_the_server_stays_sound(st, s, x.showing(i));
    law_the_server_stays_sound(st, s, x.without_tab(i));
    law_the_server_stays_sound(st, s, x.tab_moved(number));
    law_the_server_stays_sound(st, s, x.tab_shifted(i, delta));
    let t = TabView::fresh(tab_name(x.tabs.len()), mode, st.next_pane);
    law_the_server_stays_sound(st, s, x.with_new_tab(t));
    law_the_server_stays_sound(st, s, x.restyled());
    law_the_server_stays_sound(st, s, x.popup_toggled(st.next_pane));
}

proof fn lemma_edited(c: RemuxCommand, s: Seq<char>, st: StateView)
    requires
        st.sound(),
        countable(st),
    ensures
        edited(c, s, st).0.sound(),
{
    if st.sessions.contains_key(s) {
        let x = st.sessions[s];
        assert(x.sound());
        let k = x.active as int;
        match c {
            RemuxCommand::PaneStackNext => lemma_tab_steps(st, s, k, TabChange::Turn(true), 0, 0),
            RemuxCommand::PaneStackPrev => lemma_tab_steps(st, s, k, TabChange::Turn(false), 0, 0),
            RemuxCommand::Resize(d, a) => lemma_tab_steps(st, s, k, layout_change(d, a), 0, 0),
            RemuxCommand::LayoutNext => lemma_tab_steps(st, s, k, TabChange::NextLayout, 0, 0),
            RemuxCommand::SetMaster => lemma_tab_steps(st, s, k, TabChange::SetMaster, 0, 0),
            RemuxCommand::PaneToggleZoom => lemma_tab_steps(st, s, k, TabChange::ToggleZoom, 0, 0),
            RemuxCommand::PaneRename(name) => {
                let quiet = st.with(s, SessionView { renaming: None, ..x });
                assert(quiet.sound());
                lemma_tab_steps(
                    quiet,
                    s,
                    k,
                    TabChange::NamePane(x.tabs[k].focused, name),
                    0,
                    0,
                );
            },
            RemuxCommand::TabRename(name) => lemma_tab_steps(
                st,
                s,
                k,
                TabChange::NameTab(name),
                0,
                0,
            ),
            RemuxCommand::TabMove(number) => lemma_tab_steps(
                st,
                s,
                k,
                TabChange::NextLayout,
                number,
                0,
            ),
            _ => lemma_tab_steps(st, s, k, TabChange::NextLayout, 0, 0),
        }
    }
}

proof fn lemma_placed(st: StateView, s: Seq<char>, i: Option<usize>, how: PanePlacement)
    requires
        st.sound(),
        countable(st),
    ensures
        pane_placed(st, s, i, how).sound(),
{
    let next = StateView { next_pane: (st.next_pane + 1) as u64, ..st };
    assert(next.sound());
    match st.tab_at(s, i) {
        Some(k) => lemma_tab_steps(next, s, k, TabChange::Place(how, st.next_pane), 0, 0),
        None => {},
    }
}

proof fn lemma_opened(
    c: RemuxCommand,
    s: Seq<char>,
    cols: u16,
    rows: u16,
    st: StateView,
    d: SessionDefaults,
)
    requires
        st.sound(),
        countable(st),
        d.layout_mode.valid(),
    ensures
        opened(c, s, cols, rows, st, d).0.sound(),
{
    lemma_placed(st, s, None, PanePlacement::SplitVertical);
    lemma_placed(st, s, None, PanePlacement::SplitHorizontal);
    lemma_placed(st, s, None, PanePlacement::Stack);
    lemma_placed(st, s, None, PanePlacement::Auto);
    if st.sessions.contains_key(s) {
        assert(st.sessions[s].sound());
        lemma_tab_steps(
            st,
            s,
            st.sessions[s].active as int,
            TabChange::NextLayout,
            0,
            0,
        );
    }
    match c {
        RemuxCommand::SessionNew { name, folder } => {
            law_a_new_session_keeps_the_server_sound(
                st,
                name@,
                opt_text(folder),
                d.border_style,
                d.layout_mode,
                d.popup_size,
            );
        },
        _ => {},
    }
}

proof fn lemma_tab_goes(st: StateView, s: Seq<char>, k: int)
    requires
        st.sound(),
        countable(st),
        st.sessions.contains_key(s),
        0 <= k < st.sessions[s].tabs.len(),
    ensures
        tab_closed(st, s, k, idle(s)).0.sound(),
{
    lemma_tab_steps(st, s, k, TabChange::NextLayout, 0, 0);
    law_the_server_stays_sound(st, s, st.sessions[s]);
}

proof fn lemma_pane_goes(st: StateView, s: Seq<char>, pane: PaneId, seen: bool)
    requires
        st.sound(),
        countable(st),
    ensures
        pane_closed(st, s, pane).0.sound(),
        any_pane_closed(st, s, pane, seen).0.sound(),
{
    if st.sessions.contains_key(s) {
        let x = st.sessions[s];
        assert(x.sound());
        law_a_session_without_a_pane_stays_sound(x, pane);
        law_the_server_stays_sound(st, s, x.closing(pane).0);
        if let Some(after) = x.closing_in_background(pane) {
            law_the_server_stays_sound(st, s, after);
        }
    }
}

proof fn lemma_steered(c: RemuxCommand, s: Seq<char>, cols: u16, rows: u16, st: StateView)
    requires
        st.sound(),
        countable(st),
    ensures
        steered(c, s, cols, rows, st).0.sound(),
{
    if st.sessions.contains_key(s) {
        let x = st.sessions[s];
        assert(x.sound());
        match c {
            RemuxCommand::TabClose => lemma_tab_goes(st, s, x.active as int),
            RemuxCommand::TabGoto(i) => if i < x.tabs.len() {
                lemma_tab_steps(st, s, i as int, TabChange::NextLayout, 0, 0);
            },
            RemuxCommand::TabNext => {
                let i = step_index(st, s, true);
                if i < x.tabs.len() {
                    lemma_tab_steps(st, s, i as int, TabChange::NextLayout, 0, 0);
                }
            },
            RemuxCommand::TabPrev => {
                let i = step_index(st, s, false);
                if i < x.tabs.len() {
                    lemma_tab_steps(st, s, i as int, TabChange::NextLayout, 0, 0);
                }
            },
            RemuxCommand::PaneClose => {
                if x.target() is Some {
                    lemma_pane_goes(st, s, x.target()->0, true);
                }
            },
            _ => {},
        }
    }
}

proof fn lemma_organised(c: RemuxCommand, s: Seq<char>, st: StateView)
    requires
        st.sound(),
    ensures
        organised(c, s, st).0.sound(),
{
    match c {
        RemuxCommand::FolderDelete(name) => {
            let bare = StateView { folders: st.folders.remove(name@), ..st };
            let ids = st.folders[name@].session_ids;
            assert(bare.sound());
            law_a_cascade_keeps_the_server_sound(bare, ids, ids.len() as int);
        },
        RemuxCommand::FolderMoveSession { session, folder } => {
            law_filing_keeps_the_server_sound(
                st,
                session@,
                opt_text(folder),
                Seq::empty(),
                Seq::empty(),
            );
        },
        RemuxCommand::FolderRename { from, to } => {
            law_filing_keeps_the_server_sound(st, Seq::empty(), None, from@, to@);
        },
        _ => {},
    }
}

proof fn lemma_switched(
    st: StateView,
    clients: Seq<(u64, ClientView)>,
    me: int,
    s: Seq<char>,
    i: usize,
    pane: Option<PaneId>,
)
    requires
        st.sound(),
        countable(st),
    ensures
        switched(st, clients, me, s, i, pane).st.sound(),
{
    match st.tab_at(s, Some(i)) {
        Some(k) => {
            lemma_tab_steps(st, s, k, TabChange::NextLayout, 0, 0);
            let shown = st.with(s, st.sessions[s].showing(k));
            assert(countable(shown));
            if let Some(p) = pane {
                lemma_tab_steps(shown, s, k, TabChange::Focus(p), 0, 0);
            }
        },
        None => {},
    }
}

proof fn lemma_reattached(
    c: RemuxCommand,
    s: Seq<char>,
    st: StateView,
    clients: Seq<(u64, ClientView)>,
    me: int,
)
    requires
        st.sound(),
        countable(st),
    ensures
        reattached(c, s, st, clients, me).st.sound(),
{
    match c {
        RemuxCommand::SessionRename(name) => {
            law_filing_keeps_the_server_sound(st, s, None, Seq::empty(), name@);
        },
        RemuxCommand::SessionRenameByName { from, to } => {
            law_filing_keeps_the_server_sound(st, from@, None, Seq::empty(), to@);
        },
        RemuxCommand::SessionSwitchTab { session, tab_index } => {
            lemma_switched(st, clients, me, session@, tab_index, None);
        },
        RemuxCommand::SessionSwitchPane { session, tab_index, pane_id } => {
            lemma_switched(st, clients, me, session@, tab_index, Some(pane_id));
        },
        _ => {},
    }
}

proof fn lemma_reached(c: RemuxCommand, st: StateView, clients: Seq<(u64, ClientView)>)
    requires
        st.sound(),
        countable(st),
    ensures
        reached(c, st, clients).0.sound(),
{
    match c {
        RemuxCommand::TabCloseByIndex { session, tab_index } => {
            if let Some(k) = st.tab_at(session@, Some(tab_index)) {
                lemma_tab_goes(st, session@, k);
            }
        },
        RemuxCommand::TabNewInSession { session } => {
            if st.sessions.contains_key(session@) {
                assert(st.sessions[session@].sound());
                lemma_tab_steps(
                    st,
                    session@,
                    st.sessions[session@].active as int,
                    TabChange::NextLayout,
                    0,
                    0,
                );
            }
        },
        RemuxCommand::TabRenameByIndex { session, tab_index, name } => {
            if let Some(k) = st.tab_at(session@, Some(tab_index)) {
                lemma_tab_steps(st, session@, k, TabChange::NameTab(name), 0, 0);
            }
        },
        RemuxCommand::PaneNewInTab { session, tab_index } => {
            lemma_placed(st, session@, Some(tab_index), PanePlacement::Auto);
        },
        RemuxCommand::PaneCloseById { session, pane_id } => {
            lemma_pane_goes(st, session@, pane_id, crate::clients::watched(clients, session@));
        },
        RemuxCommand::PaneRenameById { session, pane_id, name } => {
            if st.sessions.contains_key(session@) {
                crate::session::lemma_tab_with(st.sessions[session@].tabs, pane_id, 0);
                if let Some(k) = crate::session::tab_with(st.sessions[session@].tabs, pane_id, 0) {
                    lemma_tab_steps(st, session@, k, TabChange::NamePane(pane_id, name), 0, 0);
                }
            }
        },
        RemuxCommand::TabMoveByIndex { session, tab_index, delta } => {
            if let Some(k) = st.tab_at(session@, Some(tab_index)) {
                lemma_tab_steps(st, session@, k, TabChange::NextLayout, 0, delta as int);
            }
        },
        _ => {},
    }
}

/// Whatever the command, and whoever gives it: every session that is left can be drawn
/// and worked on.
#[verifier::spinoff_prover]
#[verifier::rlimit(60)]
pub proof fn law_a_command_keeps_the_server_sound(
    c: RemuxCommand,
    st: StateView,
    clients: Seq<(u64, ClientView)>,
    me: int,
    d: SessionDefaults,
)
    requires
        st.sound(),
        countable(st),
        d.layout_mode.valid(),
    ensures
        commanded(c, st, clients, me, d).st.sound(),
{
    let v = clients[me].1;
    let s = match v.session_name {
        Some(s) => s,
        None => Seq::empty(),
    };
    lemma_edited(c, s, st);
    lemma_opened(c, s, v.cols, v.rows, st, d);
    lemma_steered(c, s, v.cols, v.rows, st);
    lemma_organised(c, s, st);
    lemma_reattached(c, s, st, clients, me);
    lemma_reached(c, st, clients);
}

// ---------------------------------------------------------------------------
// What a command may not do
// ---------------------------------------------------------------------------

/// While the popup is up, a command that works on the layout changes nothing at all,
/// and a resize leaves the layout alone.
pub proof fn law_the_popup_shields_the_layout_from_commands(
    c: RemuxCommand,
    st: StateView,
    clients: Seq<(u64, ClientView)>,
    me: int,
    d: SessionDefaults,
)
    requires
        clients[me].1.session_name matches Some(s) && s.len() > 0 && st.sessions.contains_key(s)
            && st.sessions[s].popup_up(),
    ensures
        works_on_layout(c) || c is Resize ==> commanded(c, st, clients, me, d).st == st,
        works_on_layout(c) ==> commanded(c, st, clients, me, d).plan == idle(
            clients[me].1.session_name->0,
        ),
{
}

/// A client without a session can only do what names its own target.
pub proof fn law_an_unattached_client_needs_a_target(
    c: RemuxCommand,
    st: StateView,
    clients: Seq<(u64, ClientView)>,
    me: int,
    d: SessionDefaults,
)
    requires
        clients[me].1.session_name is None,
        !names_its_target(c),
    ensures
        commanded(c, st, clients, me, d).st == st,
        commanded(c, st, clients, me, d).clients == clients,
        commanded(c, st, clients, me, d).plan == idle(Seq::empty()),
{
}

/// A step on the state alone that changes nothing if it fails.
spec fn safe(r: (StateView, crate::command::PlanView), st: StateView) -> bool {
    r.1.failed is Some ==> r.0 == st && !r.1.settled
}

proof fn lemma_edited_safe(c: RemuxCommand, s: Seq<char>, st: StateView)
    ensures
        safe(edited(c, s, st), st),
{
}

proof fn lemma_opened_safe(
    c: RemuxCommand,
    s: Seq<char>,
    cols: u16,
    rows: u16,
    st: StateView,
    d: SessionDefaults,
)
    ensures
        safe(opened(c, s, cols, rows, st, d), st),
{
}

proof fn lemma_steered_safe(c: RemuxCommand, s: Seq<char>, cols: u16, rows: u16, st: StateView)
    ensures
        safe(steered(c, s, cols, rows, st), st),
{
}

proof fn lemma_organised_safe(c: RemuxCommand, s: Seq<char>, st: StateView)
    ensures
        safe(organised(c, s, st), st),
{
}

proof fn lemma_reattached_safe(
    c: RemuxCommand,
    s: Seq<char>,
    st: StateView,
    clients: Seq<(u64, ClientView)>,
    me: int,
)
    ensures
        ({
            let step = reattached(c, s, st, clients, me);
            safe((step.st, step.plan), st) && (step.plan.failed is Some ==> step.clients == clients)
        }),
{
}

proof fn lemma_reached_safe(c: RemuxCommand, st: StateView, clients: Seq<(u64, ClientView)>)
    ensures
        safe(reached(c, st, clients), st),
{
}

/// A command that fails changes nothing, and is not saved.
#[verifier::spinoff_prover]
#[verifier::rlimit(60)]
pub proof fn law_a_failed_command_changes_nothing(
    c: RemuxCommand,
    st: StateView,
    clients: Seq<(u64, ClientView)>,
    me: int,
    d: SessionDefaults,
)
    ensures
        ({
            let step = commanded(c, st, clients, me, d);
            step.plan.failed is Some ==> step.st == st && step.clients == clients
                && !step.plan.settled
        }),
{
    let v = clients[me].1;
    let s = match v.session_name {
        Some(s) => s,
        None => Seq::empty(),
    };
    lemma_edited_safe(c, s, st);
    lemma_opened_safe(c, s, v.cols, v.rows, st, d);
    lemma_steered_safe(c, s, v.cols, v.rows, st);
    lemma_organised_safe(c, s, st);
    lemma_reattached_safe(c, s, st, clients, me);
    lemma_reached_safe(c, st, clients);
}

/// The clients of a session follow it to its new name; nobody is left under the old one.
pub proof fn law_clients_follow_a_renamed_session(
    st: StateView,
    clients: Seq<(u64, ClientView)>,
    from: Seq<char>,
    to: Seq<char>,
    i: int,
)
    requires
        0 <= i < clients.len(),
        from != to,
        session_renamed(st, clients, from, to) is Ok,
    ensures
        ({
            let step = session_renamed(st, clients, from, to)->Ok_0;
            &&& step.clients[i].1.session_name == (if clients[i].1.session_name == Some(from) {
                Some(to)
            } else {
                clients[i].1.session_name
            })
            &&& step.clients[i].1.session_name != Some(from)
            &&& step.st.sessions.contains_key(to) && !step.st.sessions.contains_key(from)
        }),
{
}

} // verus!
