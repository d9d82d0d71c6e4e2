//! Saved sessions, terminals, names, and lists.

use remux::clients::{Clients, EXIT_CODE_UNKNOWN};
use remux::config::{BorderStyle, TabActivity};
use remux::dormant::PersistedState;
use remux::forwarding::{
    deliver_app_clipboard, output_arrived, pane_ended, start_pty_forwarding, Terminals,
};
use remux::layout::{get_pane_name, set_pane_custom_name, LayoutNode, PaneId};
use remux::layout_modes::{BspLayout, LayoutMode};
use remux::naming::{pane_labels, tree_pane_names, update_auto_pane_names};
use remux::session_tree::{dormant_names, handle_list_sessions, send_session_tree_to};
use remux::startup::{
    clone_server_state, handle_resurrect_session, materialize_session, save_if_enabled, start,
};
use remux::state::{ServerState, StateError};
use remux::tab::PanePlacement;
use remux::validity::has_distinct_names;
use remux::views::{
    broadcast_view_list, build_view_list_message, SharedView, ViewCell, ViewMessage,
};
use std::collections::HashMap;

const MODE: LayoutMode = LayoutMode::Bsp(BspLayout);

/// Sessions `a`, with panes 0 and 2 in one tab and 3 in another that is shown, and `b`, with
/// pane 1.
fn state() -> ServerState {
    let mut st = ServerState::new();
    st.create_folder("f").unwrap();
    st.create_session("a", Some("f"), BorderStyle::ZellijStyle, MODE, (80, 70)).unwrap();
    st.create_session("b", None, BorderStyle::ZellijStyle, MODE, (80, 70)).unwrap();
    let id = st.next_pane_id();
    st.sessions.get_mut("a").unwrap().tabs[0].place_pane(PanePlacement::Auto, id);
    st.create_tab("a", MODE).unwrap();
    st
}

fn saved(st: ServerState) -> PersistedState {
    PersistedState { state: st, pane_cwds: HashMap::new() }
}

fn nothing() -> PersistedState {
    saved(ServerState::new())
}

fn texts(pairs: &[(PaneId, &str)]) -> HashMap<PaneId, String> {
    pairs.iter().map(|(p, s)| (*p, s.to_string())).collect()
}

// -- saving and starting -------------------------------------------------------

#[test]
fn saved_sessions_come_back() {
    let st = state();
    let mut other = ServerState::new();
    other.next_pane = 40;
    other.create_session("c", None, BorderStyle::TmuxStyle, MODE, (80, 70)).unwrap();
    let dormant = saved(other);
    let p = save_if_enabled(true, &st, texts(&[(0, "/tmp")]), &dormant).unwrap();
    let started = start(true, true, Some(p));
    for name in ["a", "b"] {
        assert_eq!(
            format!("{:?}", started.state.sessions.get(name).unwrap()),
            format!("{:?}", st.sessions.get(name).unwrap())
        );
    }
    assert!(started.state.sessions.contains_key("c"));
    assert_eq!(started.state.next_pane, 41);
    let mut names = started.materialize.clone();
    names.sort();
    assert_eq!(names, vec!["a", "b", "c"]);
    assert_eq!(started.cwds.get(&0).unwrap(), "/tmp");
    assert!(started.dormant.state.sessions.entries.is_empty());
    assert!(started.state.is_sound());
}

#[test]
fn nothing_is_saved_where_it_is_not_wanted() {
    assert!(save_if_enabled(false, &state(), HashMap::new(), &nothing()).is_none());
}

#[test]
fn a_server_starts_fresh_without_saved_sessions() {
    for (save, auto, loaded) in [
        (false, true, Some(saved(state()))),
        (true, true, None),
        (true, false, None),
    ] {
        let s = start(save, auto, loaded);
        assert!(s.state.sessions.entries.is_empty() && s.materialize.is_empty());
        assert_eq!(s.state.next_pane, 0);
    }
}

#[test]
fn dormant_ids_are_not_given_out() {
    let mut s = start(true, false, Some(saved(state())));
    assert!(s.state.sessions.entries.is_empty() && s.materialize.is_empty());
    assert_eq!(s.dormant.state.sessions.entries.len(), 2);
    assert_eq!(s.state.next_pane_id(), 4);
}

#[test]
fn a_repair_makes_lists_agree() {
    let mut st = state();
    st.sessions.get_mut("a").unwrap().tabs[0].pane_order = Vec::new();
    let s = start(true, true, Some(saved(st)));
    assert_eq!(s.state.sessions.get("a").unwrap().tabs[0].pane_order, vec![0, 2]);
}

#[test]
fn every_pane_is_revived() {
    let st = state();
    let panes = materialize_session(&st, "a", &texts(&[(2, "/src")]));
    let ids: Vec<PaneId> = panes.iter().map(|r| r.pane).collect();
    assert_eq!(ids, vec![0, 2, 3]);
    assert_eq!((panes[1].cols, panes[1].rows), (80, 24));
    assert_eq!(panes[1].cwd.as_deref(), Some("/src"));
    assert_eq!(panes[0].cwd, None);
    assert!(materialize_session(&st, "none", &HashMap::new()).is_empty());
}

#[test]
fn a_session_is_resurrected_once() {
    let mut dormant = PersistedState { state: state(), pane_cwds: texts(&[(3, "/x")]) };
    let mut live = ServerState::new();
    let panes = handle_resurrect_session(&mut dormant, &mut live, "a").unwrap();
    assert_eq!(panes.len(), 3);
    assert_eq!(panes[2].cwd.as_deref(), Some("/x"));
    assert!(live.sessions.contains_key("a") && !dormant.state.sessions.contains_key("a"));
    assert!(dormant.state.sessions.contains_key("b"));
    assert!(handle_resurrect_session(&mut dormant, &mut live, "a").is_none());
    assert!(handle_resurrect_session(&mut dormant, &mut live, "none").is_none());
}

#[test]
fn a_copy_of_the_state_is_the_same() {
    let st = state();
    assert_eq!(format!("{:?}", clone_server_state(&st)), format!("{st:?}"));
}

#[test]
fn a_broken_state_is_recognised() {
    let mut st = state();
    assert!(st.is_sound());
    st.sessions.get_mut("b").unwrap().active_tab = 5;
    assert!(!st.is_sound());
    let mut st = state();
    let twin = st.sessions.get("a").unwrap().duplicate();
    st.sessions.entries.push(("a".to_string(), twin));
    assert!(!has_distinct_names(&st.sessions));
    assert!(!st.is_sound());
}

#[test]
fn errors_name_what_is_missing() {
    let mut st = state();
    assert_eq!(st.create_tab("none", MODE), Err(StateError::NoSession));
    assert_eq!(st.goto_tab("a", 9), Err(StateError::NoTab));
    assert_eq!(st.create_folder("f"), Err(StateError::FolderExists));
    assert_eq!(st.move_session("a", Some("none")), Err(StateError::NoFolder));
    assert_eq!(
        st.create_session("a", None, BorderStyle::TmuxStyle, MODE, (1, 1)),
        Err(StateError::SessionExists)
    );
}

#[test]
fn filing_moves_a_session_from_folder_to_folder() {
    let mut st = state();
    st.create_folder("g").unwrap();
    st.move_session("a", Some("g")).unwrap();
    assert!(st.folders.get("f").unwrap().session_ids.is_empty());
    assert_eq!(st.folders.get("g").unwrap().session_ids, vec!["a"]);
    assert_eq!(st.sessions.get("a").unwrap().folder.as_deref(), Some("g"));
    st.rename_folder("g", "h").unwrap();
    assert_eq!(st.sessions.get("a").unwrap().folder.as_deref(), Some("h"));
    assert!(st.is_sound());
}

// -- terminals -----------------------------------------------------------------

#[test]
fn a_terminal_is_forwarded_once() {
    let mut st = state();
    let mut t = Terminals::new();
    for p in [0, 1, 2, 3] {
        t.open(p);
    }
    assert_eq!(start_pty_forwarding(&st, "a", &mut t), vec![3]);
    assert!(start_pty_forwarding(&st, "a", &mut t).is_empty());
    st.goto_tab("a", 0).unwrap();
    st.sessions.get_mut("a").unwrap().toggle_popup(9);
    assert_eq!(start_pty_forwarding(&st, "a", &mut t), vec![0, 2], "the popup has no terminal yet");
    t.open(9);
    assert_eq!(start_pty_forwarding(&st, "a", &mut t), vec![9]);
    assert!(start_pty_forwarding(&st, "none", &mut t).is_empty());
    assert!(t.close(9) && !t.close(9));
}

#[test]
fn output_marks_only_background_tabs() {
    let mut st = state();
    let clients = Clients::new();
    output_arrived(3, true, false, true, &mut st, &clients);
    output_arrived(2, false, false, true, &mut st, &clients);
    let tabs = &st.sessions.get("a").unwrap().tabs;
    assert_eq!((tabs[0].activity, tabs[1].activity), (TabActivity::Activity, TabActivity::Quiet));
    st.record_pane_activity(0, true);
    st.record_pane_activity(0, false);
    assert_eq!(st.sessions.get("a").unwrap().tabs[0].activity, TabActivity::Bell);
    assert!(st.is_sound());
}

#[test]
fn an_unseen_pane_reaches_no_clipboard() {
    let mut st = state();
    let mut clients = Clients::new();
    for id in 0..4 {
        clients.connect(id);
    }
    clients.entries[0].1.attach("a");
    clients.entries[1].1.attach("b");
    clients.entries[2].1.subscribe_pane(3, Some((10, 5)));
    clients.entries[3].1.subscribe_pane(3, None);
    assert_eq!(deliver_app_clipboard(3, &st, &clients), vec![0, 2]);
    assert!(deliver_app_clipboard(2, &st, &clients).is_empty());
    assert_eq!(st.focused_in(1), vec!["b"]);
    assert_eq!(output_arrived(3, false, true, true, &mut st, &clients), vec![0, 2]);
    assert!(output_arrived(3, false, true, false, &mut st, &clients).is_empty());
    assert!(output_arrived(3, false, false, true, &mut st, &clients).is_empty());
}

#[test]
fn a_pane_that_ended_out_of_sight_is_reported() {
    let mut st = state();
    let mut clients = Clients::new();
    clients.connect(8);
    clients.entries[0].1.subscribe_pane(0, None);
    let mut t = Terminals::new();
    for p in [0, 1, 2, 3] {
        t.open(p);
    }
    let (plan, told) = pane_ended(0, "a", &mut st, &mut clients, &t);
    assert!(plan.reap.is_empty());
    assert_eq!(told, vec![(8, (0, EXIT_CODE_UNKNOWN))]);
    assert!(clients.entries[0].1.subscribed_panes.is_empty());
    let (plan, told) = pane_ended(3, "a", &mut st, &mut clients, &t);
    assert_eq!(plan.reap, vec![3]);
    assert!(told.is_empty());
    assert_eq!(st.sessions.get("a").unwrap().tabs.len(), 1);
}

// -- names ---------------------------------------------------------------------

#[test]
fn a_users_name_stays_and_names_settle() {
    let mut st = state();
    st.goto_tab("a", 0).unwrap();
    set_pane_custom_name(&mut st.sessions.get_mut("a").unwrap().tabs[0].layout, 0, "mine");
    let found = texts(&[(0, "zsh"), (2, "vim"), (3, "top")]);
    assert!(update_auto_pane_names("a", &mut st, &found));
    let layout = &st.sessions.get("a").unwrap().tabs[0].layout;
    assert_eq!(get_pane_name(layout, 0), Some(String::new()));
    assert_eq!(get_pane_name(layout, 2), Some("vim".to_string()));
    assert!(!update_auto_pane_names("a", &mut st, &found), "nothing changed");
    assert!(!update_auto_pane_names("none", &mut st, &found));
    assert!(st.is_sound());
}

#[test]
fn a_pane_that_is_being_renamed_is_left_alone() {
    let mut st = state();
    let s = st.sessions.get_mut("a").unwrap();
    s.rename_state = Some((3, "ne".to_string()));
    assert!(!update_auto_pane_names("a", &mut st, &texts(&[(3, "vim")])));
}

#[test]
fn a_pane_has_one_label() {
    let st = state();
    assert_eq!(pane_labels(&st, 2), ("a".to_string(), "Tab 1".to_string()));
    assert_eq!(pane_labels(&st, 3), ("a".to_string(), "Tab 2".to_string()));
    assert_eq!(pane_labels(&st, 77), (String::new(), String::new()));
}

#[test]
fn the_tree_shows_a_users_name_first() {
    let mut st = state();
    set_pane_custom_name(&mut st.sessions.get_mut("a").unwrap().tabs[0].layout, 2, "mine");
    let shown = tree_pane_names(&st, texts(&[(1, "zsh"), (2, "vim")]));
    assert_eq!(shown, texts(&[(1, "zsh"), (2, "mine")]));
}

// -- lists ---------------------------------------------------------------------

#[test]
fn every_session_is_listed_with_its_clients() {
    let st = state();
    let mut clients = Clients::new();
    for id in 0..3 {
        clients.connect(id);
    }
    clients.entries[0].1.attach("a");
    clients.entries[2].1.attach("a");
    let list = handle_list_sessions(&st, &clients);
    let a = list.iter().find(|e| e.name == "a").unwrap();
    assert_eq!((a.folder.as_deref(), a.tab_count, a.client_count), (Some("f"), 2, 2));
    let b = list.iter().find(|e| e.name == "b").unwrap();
    assert_eq!((b.folder.as_deref(), b.tab_count, b.client_count), (None, 1, 0));
    assert_eq!(list.len(), 2);
    assert_eq!(clients.members_of("a"), vec![0, 2]);
    assert!(clients.members_of("b").is_empty());
}

#[test]
fn dormant_names_are_in_order() {
    let mut st = ServerState::new();
    for name in ["pear", "Zoo", "apple", "app"] {
        st.create_session(name, None, BorderStyle::TmuxStyle, MODE, (1, 1)).unwrap();
    }
    assert_eq!(dormant_names(&saved(st)), vec!["Zoo", "app", "apple", "pear"]);
}

#[test]
fn watched_panes_are_listed_once() {
    let mut clients = Clients::new();
    clients.connect(0);
    clients.connect(1);
    clients.entries[0].1.subscribe_pane(5, None);
    clients.entries[0].1.subscribe_pane(6, None);
    clients.entries[1].1.subscribe_pane(5, Some((2, 2)));
    let mut panes = clients.watched_panes();
    panes.sort();
    assert_eq!(panes, vec![5, 6]);
}

#[test]
fn views_are_told_as_they_are() {
    let views = vec![SharedView {
        id: 3,
        name: "both".to_string(),
        cells: vec![ViewCell { id: 1, conn: "local".to_string(), pane_id: 2 }],
        layout: MODE,
        custom_tree: Some(LayoutNode::new_stack(1)),
        focused: Some(1),
        zoomed: true,
    }];
    assert_eq!(format!("{:?}", build_view_list_message(&views)), format!("{views:?}"));
}

#[test]
fn the_creator_of_a_view_is_told_its_id() {
    let mut clients = Clients::new();
    clients.connect(4);
    clients.connect(6);
    let views: Vec<SharedView> = Vec::new();
    let kinds = |sent: &[(u64, ViewMessage)]| -> Vec<(u64, Option<u64>)> {
        sent.iter()
            .map(|(to, m)| match m {
                ViewMessage::ViewCreated { id } => (*to, Some(*id)),
                ViewMessage::ViewList { .. } => (*to, None),
            })
            .collect()
    };
    let sent = broadcast_view_list(&clients, 6, Some(3), &views);
    assert_eq!(kinds(&sent), vec![(6, Some(3)), (4, None), (6, None)]);
    let sent = broadcast_view_list(&clients, 6, None, &views);
    assert_eq!(kinds(&sent), vec![(4, None), (6, None)]);
    let sent = broadcast_view_list(&clients, 9, Some(3), &views);
    assert_eq!(kinds(&sent), vec![(4, None), (6, None)], "the creator is gone");
}

#[test]
fn every_session_is_in_the_tree_once() {
    let mut st = state();
    st.create_folder("empty").unwrap();
    st.sessions.get_mut("b").unwrap().folder = Some("gone".to_string());
    set_pane_custom_name(&mut st.sessions.get_mut("a").unwrap().tabs[0].layout, 2, "mine");
    let mut other = ServerState::new();
    other.create_session("old", None, BorderStyle::TmuxStyle, MODE, (80, 70)).unwrap();
    let mut clients = Clients::new();
    clients.connect(4);
    clients.connect(6);
    clients.entries[1].1.attach("a");
    let found = texts(&[(0, "zsh"), (1, "vim"), (2, "top")]);
    let sent = send_session_tree_to(&vec![6, 9, 4], &st, &clients, found, &saved(other));
    let ids: Vec<u64> = sent.iter().map(|(id, _)| *id).collect();
    assert_eq!(ids, vec![6, 4], "one is not connected");
    for (id, tree) in &sent {
        assert_eq!(tree.dormant, vec!["old"]);
        let folders: Vec<(&str, usize)> =
            tree.folders.iter().map(|f| (f.name.as_str(), f.sessions.len())).collect();
        assert_eq!(folders, vec![("f", 1), ("empty", 0)]);
        let a = &tree.folders[0].sessions[0];
        assert_eq!((a.name.as_str(), a.client_count, a.is_current), ("a", 1, *id == 6));
        let panes: Vec<Vec<(PaneId, &str)>> = a
            .tabs
            .iter()
            .map(|t| t.panes.iter().map(|p| (p.id, p.name.as_str())).collect())
            .collect();
        assert_eq!(panes, vec![vec![(0, "zsh"), (2, "mine")], vec![(3, "")]]);
        let focused: Vec<Vec<PaneId>> = a
            .tabs
            .iter()
            .map(|t| t.panes.iter().filter(|p| p.is_focused).map(|p| p.id).collect())
            .collect();
        assert_eq!(focused, vec![vec![2], vec![3]]);
        let unfiled: Vec<&str> = tree.unfiled.iter().map(|s| s.name.as_str()).collect();
        assert_eq!(unfiled, vec!["b"], "a folder that is gone files nothing");
    }
}

#[test]
fn the_tree_tells_which_pane_of_a_stack_is_seen() {
    let mut st = state();
    let id = st.next_pane_id();
    st.sessions.get_mut("a").unwrap().tabs[1].place_pane(PanePlacement::Stack, id);
    let mut clients = Clients::new();
    clients.connect(4);
    let sent = send_session_tree_to(&vec![4], &st, &clients, texts(&[]), &nothing());
    let panes: Vec<(PaneId, bool, bool)> = sent[0].1.folders[0].sessions[0].tabs[1]
        .panes
        .iter()
        .map(|p| (p.id, p.is_focused, p.is_active))
        .collect();
    assert_eq!(panes, vec![(3, false, false), (4, true, true)]);
}
