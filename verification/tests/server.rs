//! Commands and messages of clients, and what they come to.

use remux::client::Drag;
use remux::clients::Clients;
use remux::command::{
    handle_command, Ask, Audience, Gone, Plan, RemuxCommand, SessionDefaults, Spawn, SpawnSize,
};
use remux::config::{BorderStyle, TabActivity};
use remux::follow_up::{
    answer_focus, answer_move, answer_popup_size, dismiss, handle_session_removed, move_target,
    popup_start_size,
};
use remux::hit::HitRegions;
use remux::layout::{all_pane_ids, FocusDirection, PaneId, Rect};
use remux::layout_modes::{BspLayout, LayoutMode};
use remux::message::{handle_client_message, ClientMessage, Measure, Reply};
use remux::pointer::Surface;
use remux::screen::{Cell, Row, Screen};
use remux::state::{ServerState, StateError};
use remux::views::{NewCell, ViewChange};
use std::collections::HashMap;

const ME: u64 = 4;
const YOU: u64 = 6;

fn defaults() -> SessionDefaults {
    SessionDefaults {
        border_style: BorderStyle::TmuxStyle,
        layout_mode: LayoutMode::Bsp(BspLayout),
        popup_size: (80, 70),
    }
}

/// Two clients, of which the first is attached to `main`.
fn server() -> (ServerState, Clients) {
    let mut st = ServerState::new();
    let d = defaults();
    st.create_session("main", None, d.border_style, d.layout_mode, d.popup_size).unwrap();
    st.create_session("other", None, d.border_style, d.layout_mode, d.popup_size).unwrap();
    let mut clients = Clients::new();
    clients.connect(ME);
    clients.connect(YOU);
    clients.entries[0].1.attach("main");
    (st, clients)
}

fn run(st: &mut ServerState, clients: &mut Clients, c: RemuxCommand) -> Plan {
    handle_command(ME, c, st, clients, &defaults()).unwrap()
}

fn panes(st: &ServerState, session: &str) -> Vec<PaneId> {
    st.sessions.get(session).unwrap().all_panes()
}

/// A screen that holds `text` and, above it, `history` lines.
fn screen(text: &str, history: usize) -> Screen {
    let mut s = Screen::new(20, 5, 100);
    for (i, c) in text.chars().enumerate() {
        s.grid[0].cells[i].c = c;
    }
    for _ in 0..history {
        let cells = (0..20).map(|_| Cell::empty()).collect();
        s.scrollback.push(Row { cells, wrapped: false });
    }
    s
}

fn surface<'a>(screens: &'a [(PaneId, Screen)]) -> Surface<'a> {
    Surface {
        regions: HitRegions::default(),
        pane_rects: screens
            .iter()
            .map(|(id, _)| (*id, Rect { x: 0, y: 0, width: 20, height: 5 }))
            .collect(),
        popup: None,
        style: BorderStyle::TmuxStyle,
        screens: screens.iter().map(|(id, s)| (*id, s)).collect(),
    }
}

fn tell(st: &mut ServerState, clients: &mut Clients, s: &Surface, m: ClientMessage) -> Reply {
    handle_client_message(ME, m, st, clients, s, true, &defaults()).unwrap()
}

// -- commands ----------------------------------------------------------------

#[test]
fn a_split_starts_a_terminal_of_half_the_size() {
    let (mut st, mut clients) = server();
    let plan = run(&mut st, &mut clients, RemuxCommand::PaneSplitVertical);
    assert_eq!(
        plan.spawn,
        Some(Spawn { pane: 2, size: SpawnSize::Exact(40, 24), source: Some(0) })
    );
    assert_eq!(panes(&st, "main"), vec![0, 2]);
    assert!(plan.forward && plan.resize && plan.settled);
    assert_eq!(plan.draw, Audience::Everyone);
    assert_eq!(st.focused("main"), Some(2));
}

#[test]
fn every_command_keeps_the_server_sound() {
    let (mut st, mut clients) = server();
    let all = vec![
        RemuxCommand::PaneSplitHorizontal,
        RemuxCommand::PaneNew,
        RemuxCommand::PaneStackAdd,
        RemuxCommand::PaneStackNext,
        RemuxCommand::PaneStackPrev,
        RemuxCommand::Resize(FocusDirection::Left, 5),
        RemuxCommand::LayoutNext,
        RemuxCommand::SetMaster,
        RemuxCommand::PaneToggleZoom,
        RemuxCommand::PaneRename("p".to_string()),
        RemuxCommand::TabNew,
        RemuxCommand::TabRename("t".to_string()),
        RemuxCommand::TabPrev,
        RemuxCommand::TabNext,
        RemuxCommand::TabGoto(0),
        RemuxCommand::TabMove(2),
        RemuxCommand::ToggleStyle,
        RemuxCommand::PopupToggle,
        RemuxCommand::PopupToggle,
        RemuxCommand::FolderNew("f".to_string()),
        RemuxCommand::FolderMoveSession {
            session: "other".to_string(),
            folder: Some("f".to_string()),
        },
        RemuxCommand::FolderRename { from: "f".to_string(), to: "g".to_string() },
        RemuxCommand::SessionNew { name: "third".to_string(), folder: Some("g".to_string()) },
        RemuxCommand::TabNewInSession { session: "third".to_string() },
        RemuxCommand::TabRenameByIndex {
            session: "third".to_string(),
            tab_index: 0,
            name: "n".to_string(),
        },
        RemuxCommand::PaneNewInTab { session: "third".to_string(), tab_index: 1 },
        RemuxCommand::TabMoveByIndex { session: "third".to_string(), tab_index: 0, delta: 1 },
        RemuxCommand::TabCloseByIndex { session: "third".to_string(), tab_index: 0 },
        RemuxCommand::SessionRenameByName { from: "third".to_string(), to: "last".to_string() },
        RemuxCommand::PaneClose,
        RemuxCommand::TabClose,
        RemuxCommand::FolderDelete("g".to_string()),
        RemuxCommand::Other,
    ];
    for c in all {
        let text = format!("{c:?}");
        run(&mut st, &mut clients, c);
        assert!(st.is_sound(), "{text}");
    }
    assert!(st.sessions.contains_key("main"));
    assert!(!st.sessions.contains_key("last") && !st.sessions.contains_key("other"));
}

#[test]
fn the_popup_shields_the_layout_from_commands() {
    let (mut st, mut clients) = server();
    let plan = run(&mut st, &mut clients, RemuxCommand::PopupToggle);
    assert!(plan.spawn.is_some());
    let before = format!("{:?}", st.sessions.get("main").unwrap().tabs);
    for c in [
        RemuxCommand::PaneSplitVertical,
        RemuxCommand::LayoutNext,
        RemuxCommand::PaneToggleZoom,
        RemuxCommand::SetMaster,
        RemuxCommand::PaneStackAdd,
    ] {
        run(&mut st, &mut clients, c);
        assert_eq!(format!("{:?}", st.sessions.get("main").unwrap().tabs), before);
    }
    let plan = run(&mut st, &mut clients, RemuxCommand::Resize(FocusDirection::Right, 5));
    assert!(matches!(plan.ask, Some(Ask::PopupSize { .. })));
    let plan = run(&mut st, &mut clients, RemuxCommand::PaneClose);
    assert_eq!(plan.reap, vec![2]);
    assert_eq!(st.sessions.get("main").unwrap().popup_pane, None);
}

#[test]
fn an_unattached_client_needs_a_target() {
    let (mut st, mut clients) = server();
    let before = format!("{st:?}");
    let plan =
        handle_command(YOU, RemuxCommand::TabNew, &mut st, &mut clients, &defaults()).unwrap();
    assert_eq!(format!("{st:?}"), before);
    assert!(!plan.settled);
    let c = RemuxCommand::TabNewInSession { session: "other".to_string() };
    handle_command(YOU, c, &mut st, &mut clients, &defaults()).unwrap();
    assert_eq!(st.sessions.get("other").unwrap().tabs.len(), 2);
    assert!(handle_command(99, RemuxCommand::TabNew, &mut st, &mut clients, &defaults()).is_none());
}

#[test]
fn a_failed_command_changes_nothing() {
    let cases = vec![
        (
            RemuxCommand::SessionNew { name: "main".to_string(), folder: None },
            StateError::SessionExists,
        ),
        (RemuxCommand::FolderDelete("none".to_string()), StateError::NoFolder),
    ];
    for (c, e) in cases {
        let (mut st, mut clients) = server();
        let before = format!("{st:?} {clients:?}");
        let text = format!("{c:?}");
        let plan = run(&mut st, &mut clients, c);
        assert_eq!(plan.failed, Some(e), "{text}");
        assert_eq!(format!("{st:?} {clients:?}"), before, "{text}");
    }
    for c in [
        RemuxCommand::SessionRenameByName { from: "none".to_string(), to: "x".to_string() },
        RemuxCommand::SessionRenameByName { from: "main".to_string(), to: "other".to_string() },
    ] {
        let (mut st, mut clients) = server();
        let before = format!("{st:?} {clients:?}");
        let plan = run(&mut st, &mut clients, c);
        assert_eq!(plan.failed, None, "a rename that cannot be is passed over");
        assert_eq!(format!("{st:?} {clients:?}"), before);
    }
    let (mut st, mut clients) = server();
    assert_eq!(st.rename_session("none", "x"), Err(StateError::NoSession));
    assert_eq!(st.rename_session("main", "other"), Err(StateError::SessionExists));
    assert_eq!(st.rename_tab("main", 9, "x"), Err(StateError::NoTab));
    run(&mut st, &mut clients, RemuxCommand::FolderNew("f".to_string()));
    let plan = run(&mut st, &mut clients, RemuxCommand::FolderNew("f".to_string()));
    assert_eq!(plan.failed, Some(StateError::FolderExists));
}

#[test]
fn clients_follow_a_renamed_session() {
    let (mut st, mut clients) = server();
    run(&mut st, &mut clients, RemuxCommand::SessionRename("new".to_string()));
    assert_eq!(clients.entries[0].1.session_name.as_deref(), Some("new"));
    assert_eq!(clients.entries[1].1.session_name, None);
    assert!(st.sessions.contains_key("new") && !st.sessions.contains_key("main"));
    assert_eq!(st.sessions.get("new").unwrap().name, "new");
}

#[test]
fn renaming_back_restores_the_sessions() {
    let (mut st, _) = server();
    let before = format!("{:?}", st.sessions.get("main").unwrap());
    st.rename_session("main", "x").unwrap();
    st.rename_session("x", "main").unwrap();
    assert_eq!(format!("{:?}", st.sessions.get("main").unwrap()), before);
}

#[test]
fn keys_go_to_the_pane_with_the_input() {
    let (mut st, mut clients) = server();
    let plan = run(&mut st, &mut clients, RemuxCommand::SendKey(vec![27, 91]));
    assert_eq!(plan.keys, Some((0, vec![27, 91])));
}

#[test]
fn the_last_pane_takes_its_session_along() {
    let (mut st, mut clients) = server();
    let plan = run(&mut st, &mut clients, RemuxCommand::PaneClose);
    assert_eq!(plan.reap, vec![0]);
    assert!(matches!(plan.gone, Gone::Rehome(ref s) if s == "main"));
    let r = handle_session_removed("main", &st, &mut clients);
    assert_eq!(r.next.as_deref(), Some("other"));
    assert!(r.told.is_empty());
    assert_eq!(clients.entries[0].1.session_name.as_deref(), Some("other"));
}

#[test]
fn without_another_session_the_client_is_let_go() {
    let (mut st, mut clients) = server();
    st.delete_session("other").unwrap();
    run(&mut st, &mut clients, RemuxCommand::PaneClose);
    let r = handle_session_removed("main", &st, &mut clients);
    assert_eq!(r.next, None);
    assert_eq!(r.told, vec![ME]);
    assert_eq!(clients.entries[0].1.session_name, None);
}

#[test]
fn a_deleted_folder_leaves_no_session() {
    let (mut st, mut clients) = server();
    st.create_folder("f").unwrap();
    st.move_session("main", Some("f")).unwrap();
    let plan = run(&mut st, &mut clients, RemuxCommand::FolderDelete("f".to_string()));
    assert!(!st.sessions.contains_key("main") && !st.folders.contains_key("f"));
    assert_eq!(plan.reap, vec![0]);
    match plan.gone {
        Gone::Dismiss(names) => {
            assert_eq!(names, vec!["main"]);
            assert_eq!(dismiss(&names, &mut clients), vec![(ME, "main".to_string())]);
            assert!(!clients.has_client("main"));
        }
        other => panic!("{other:?}"),
    }
}

#[test]
fn a_focus_question_is_answered_by_the_outcome() {
    let (mut st, mut clients) = server();
    run(&mut st, &mut clients, RemuxCommand::PaneSplitVertical);
    let plan = run(&mut st, &mut clients, RemuxCommand::PaneFocus(FocusDirection::Left));
    assert!(matches!(plan.ask, Some(Ask::Focus { direction: FocusDirection::Left, .. })));
    let tree = st.sessions.get("main").unwrap().tabs[0].layout.duplicate();
    answer_focus(&mut st, "main", tree, Some(0));
    assert_eq!(st.focused("main"), Some(0));
}

#[test]
fn a_moved_pane_stays_moved() {
    let (mut st, mut clients) = server();
    run(&mut st, &mut clients, RemuxCommand::PaneNew);
    let area = Rect { x: 0, y: 0, width: 80, height: 23 };
    assert_eq!(move_target(&st, "main", FocusDirection::Left, area), Some(0));
    assert_eq!(move_target(&st, "none", FocusDirection::Left, area), None);
    let mut tree = remux::layout::LayoutNode::new_stack(2);
    tree.split_vertical(2, 0);
    answer_move(&mut st, "main", Some(tree));
    let tab = &st.sessions.get("main").unwrap().tabs[0];
    assert_eq!(all_pane_ids(&tab.layout), vec![2, 0]);
    assert!(matches!(tab.layout_mode, LayoutMode::Custom(_)));
}

#[test]
fn the_popup_gets_its_size() {
    let (mut st, _) = server();
    answer_popup_size(&mut st, "main", (50, 60));
    assert_eq!(st.sessions.get("main").unwrap().popup_size, (50, 60));
    assert_eq!(popup_start_size(Rect { x: 1, y: 1, width: 40, height: 20 }), (38, 18));
}

#[test]
fn a_new_id_is_new() {
    let (mut st, mut clients) = server();
    let mut seen = vec![0, 1];
    for _ in 0..5 {
        let plan = run(&mut st, &mut clients, RemuxCommand::PaneNew);
        let id = plan.spawn.unwrap().pane;
        assert!(!seen.contains(&id));
        seen.push(id);
    }
    assert_eq!(panes(&st, "main").len(), 6);
}

#[test]
fn a_switched_tab_is_no_longer_marked() {
    let (mut st, mut clients) = server();
    run(&mut st, &mut clients, RemuxCommand::TabNew);
    st.sessions.get_mut("main").unwrap().tabs[0].activity = TabActivity::Bell;
    let c = RemuxCommand::SessionSwitchTab { session: "main".to_string(), tab_index: 0 };
    run(&mut st, &mut clients, c);
    let s = st.sessions.get("main").unwrap();
    assert_eq!((s.active_tab, s.tabs[0].activity), (0, TabActivity::Quiet));
}

// -- messages ----------------------------------------------------------------

#[test]
fn attaching_to_nothing_says_so() {
    let (mut st, mut clients) = server();
    let m = ClientMessage::Attach { session_name: "none".to_string() };
    let r = tell(&mut st, &mut clients, &surface(&[]), m);
    assert!(r.error.unwrap().contains("none"));
    assert_eq!(clients.entries[0].1.session_name.as_deref(), Some("main"));
}

#[test]
fn attaching_moves_the_client() {
    let (mut st, mut clients) = server();
    let m = ClientMessage::Attach { session_name: "other".to_string() };
    let r = tell(&mut st, &mut clients, &surface(&[]), m);
    assert_eq!(r.error, None);
    assert_eq!(clients.entries[0].1.session_name.as_deref(), Some("other"));
    assert!(r.plan.forward && r.plan.invalidate && r.plan.resize && r.tree_changed);
    let r = tell(&mut st, &mut clients, &surface(&[]), ClientMessage::Detach);
    assert_eq!(clients.entries[0].1.session_name, None);
    assert!(r.tree_changed);
}

#[test]
fn input_reaches_the_pane_as_it_was_typed() {
    let (mut st, mut clients) = server();
    let screens = [(0, screen("", 0))];
    let r = tell(
        &mut st,
        &mut clients,
        &surface(&screens),
        ClientMessage::Input { data: b"ls\x0c".to_vec() },
    );
    assert_eq!(r.plan.keys, Some((0, b"ls\x0c".to_vec())));
    assert_eq!(r.clear, Some(0));
}

#[test]
fn typing_ends_a_trip_into_the_history() {
    let (mut st, mut clients) = server();
    let screens = [(0, screen("", 10))];
    clients.entries[0].1.scroll_offset = 4;
    let m = ClientMessage::Input { data: b"x".to_vec() };
    tell(&mut st, &mut clients, &surface(&screens), m);
    assert_eq!(clients.entries[0].1.scroll_offset, 0);
    clients.entries[0].1.scroll_offset = 4;
    clients.entries[0].1.handle_mode_changed("VISUAL");
    let m = ClientMessage::Input { data: b"x".to_vec() };
    tell(&mut st, &mut clients, &surface(&screens), m);
    assert_eq!(clients.entries[0].1.scroll_offset, 4, "not in copy mode");
}

#[test]
fn the_popup_gets_the_input() {
    let (mut st, mut clients) = server();
    run(&mut st, &mut clients, RemuxCommand::PopupToggle);
    let screens = [(0, screen("", 0)), (2, screen("", 0))];
    let m = ClientMessage::Input { data: b"q".to_vec() };
    let r = tell(&mut st, &mut clients, &surface(&screens), m);
    assert_eq!(r.plan.keys, Some((2, b"q".to_vec())));
}

#[test]
fn a_personal_message_concerns_nobody_else() {
    let (mut st, mut clients) = server();
    let before = format!("{st:?} {:?}", clients.entries[1]);
    let screens = [(0, screen("hello", 3))];
    for m in [
        ClientMessage::SearchInfo { current: 1, total: 2 },
        ClientMessage::ScrollDelta { delta: 2 },
        ClientMessage::ScrollReset,
        ClientMessage::SubscribeSessionTree,
        ClientMessage::UnsubscribeSessionTree,
        ClientMessage::RequestScrollbackInfo,
        ClientMessage::SubscribePane { pane_id: 0, cols: 9, rows: 9, size_demand: true },
        ClientMessage::UnsubscribePane { pane_id: 0 },
    ] {
        tell(&mut st, &mut clients, &surface(&screens), m);
        assert_eq!(format!("{st:?} {:?}", clients.entries[1]), before);
    }
}

#[test]
fn nobody_waits_for_a_pane_that_is_gone() {
    let (mut st, mut clients) = server();
    let m = ClientMessage::SubscribePane { pane_id: 77, cols: 9, rows: 9, size_demand: true };
    let r = tell(&mut st, &mut clients, &surface(&[]), m);
    assert_eq!(r.exited, Some(77));
    assert!(clients.entries[0].1.subscribed_panes.is_empty());
}

#[test]
fn watching_a_pane_asks_for_its_size() {
    let (mut st, mut clients) = server();
    let screens = [(1, screen("hi", 0))];
    let m = ClientMessage::SubscribePane { pane_id: 1, cols: 30, rows: 10, size_demand: true };
    let r = tell(&mut st, &mut clients, &surface(&screens), m);
    assert_eq!(clients.subscriber_min_demand(1), Some((30, 10)));
    assert_eq!(r.measure, Measure::Pane(1));
    let m = ClientMessage::InputToPane { pane_id: 1, data: b"k".to_vec() };
    let r = tell(&mut st, &mut clients, &surface(&screens), m);
    assert_eq!(r.plan.keys, Some((1, b"k".to_vec())));
}

#[test]
fn a_drag_copies_what_it_covers() {
    let (mut st, mut clients) = server();
    let screens = [(0, screen("hello world", 0))];
    let s = surface(&screens);
    let drag = |x, is_final| ClientMessage::MouseDrag {
        drag: Drag { start_x: 0, start_y: 0, end_x: x, end_y: 0, is_final },
        pane: None,
    };
    tell(&mut st, &mut clients, &s, drag(4, false));
    assert!(clients.entries[0].1.mouse_selection.is_some());
    let r = tell(&mut st, &mut clients, &s, drag(4, true));
    assert_eq!(r.copied.as_deref(), Some("hello"));
}

#[test]
fn killing_a_session_tells_its_clients() {
    let (mut st, mut clients) = server();
    let m = ClientMessage::KillSession { name: "main".to_string() };
    let r = tell(&mut st, &mut clients, &surface(&[]), m);
    assert!(!st.sessions.contains_key("main"));
    assert_eq!(r.plan.reap, vec![0]);
    assert!(r.plan.settled);
    assert!(matches!(r.plan.gone, Gone::Dismiss(ref n) if n == &["main".to_string()]));
    let m = ClientMessage::KillSession { name: "main".to_string() };
    let r = tell(&mut st, &mut clients, &surface(&[]), m);
    assert_eq!(r.plan.failed, Some(StateError::NoSession));
}

#[test]
fn lists_and_histories_are_asked_for() {
    let (mut st, mut clients) = server();
    let screens = [(0, screen("x", 3))];
    let s = surface(&screens);
    assert!(tell(&mut st, &mut clients, &s, ClientMessage::ListSessions).plan.list);
    assert!(tell(&mut st, &mut clients, &s, ClientMessage::ListSessionTree).send_tree);
    let r = tell(&mut st, &mut clients, &s, ClientMessage::RequestScrollback);
    assert_eq!(r.history, Some(0));
    let r = tell(&mut st, &mut clients, &s, ClientMessage::RequestScrollbackInfo);
    assert_eq!(r.lines, Some(8));
    let m = ClientMessage::ResurrectSession { name: "old".to_string() };
    assert_eq!(tell(&mut st, &mut clients, &s, m).resurrect.as_deref(), Some("old"));
}

#[test]
fn a_view_request_is_handed_on_whole() {
    let (mut st, mut clients) = server();
    clients.entries[0].1.resize(100, 30);
    clients.entries[1].1.resize(90, 40);
    let before = format!("{st:?} {clients:?}");
    let area = Rect { x: 0, y: 0, width: 90, height: 29 };
    let name = || "n".to_string();
    let dir = FocusDirection::Up;
    let cells = || vec![NewCell { conn: "local".to_string(), pane_id: 7 }];
    let cases = vec![
        (ClientMessage::ViewCreate { name: name() }, ViewChange::Create { name: name() }),
        (ClientMessage::ViewDelete { id: 1 }, ViewChange::Delete { id: 1 }),
        (
            ClientMessage::ViewRename { id: 1, name: name() },
            ViewChange::Rename { id: 1, name: name() },
        ),
        (
            ClientMessage::ViewAddCells { id: 1, cells: cells() },
            ViewChange::AddCells { id: 1, cells: cells() },
        ),
        (
            ClientMessage::ViewRemoveCell { id: 1, cell_id: 2 },
            ViewChange::RemoveCell { id: 1, cell_id: 2 },
        ),
        (
            ClientMessage::ViewSetFocus { id: 1, cell_id: 2 },
            ViewChange::SetFocus { id: 1, cell_id: 2 },
        ),
        (ClientMessage::ViewCycleLayout { id: 1 }, ViewChange::CycleLayout { id: 1 }),
        (ClientMessage::ViewToggleZoom { id: 1 }, ViewChange::ToggleZoom { id: 1 }),
        (ClientMessage::ViewSetMaster { id: 1 }, ViewChange::SetMaster { id: 1 }),
        (
            ClientMessage::ViewResizeCell { id: 1, cell_id: 2, dir, amount: 5 },
            ViewChange::ResizeCell { id: 1, cell_id: 2, dir, amount: 5 },
        ),
        (
            ClientMessage::ViewMoveCell { id: 1, cell_id: 2, dir },
            ViewChange::MoveCell { id: 1, cell_id: 2, dir, area },
        ),
    ];
    for (m, change) in cases {
        let r = tell(&mut st, &mut clients, &surface(&[]), m);
        assert_eq!(format!("{:?}", r.views.unwrap()), format!("{change:?}"));
        assert_eq!(r.plan.draw, Audience::Nobody);
    }
    assert_eq!(format!("{st:?} {clients:?}"), before);
}

#[test]
fn errors_are_told_in_words() {
    assert_eq!(StateError::NoSession.message(), "session not found");
    assert_eq!(StateError::SessionExists.message(), "session already exists");
    assert_eq!(StateError::NoFolder.message(), "folder not found");
    assert_eq!(StateError::FolderExists.message(), "folder already exists");
    assert_eq!(StateError::NoTab.message(), "tab not found");
}

#[test]
fn an_unknown_client_gets_no_answer() {
    let (mut st, mut clients) = server();
    let screens: HashMap<PaneId, &Screen> = HashMap::new();
    let s = Surface {
        regions: HitRegions::default(),
        pane_rects: Vec::new(),
        popup: None,
        style: BorderStyle::TmuxStyle,
        screens,
    };
    let m = ClientMessage::ListSessions;
    assert!(handle_client_message(99, m, &mut st, &mut clients, &s, true, &defaults()).is_none());
}
