//! Saved sessions that are not live.

use remux::config::BorderStyle;
use remux::dormant::{merge_dormant_into, take_dormant_session, PersistedState};
use remux::layout::all_pane_ids;
use remux::state::ServerState;
use std::collections::HashMap;

/// Build a `ServerState` with the named sessions (each optionally filed
/// under a folder), returning it alongside the first pane id of the first
/// listed session (handy for CWD assertions).
fn state_with_sessions(sessions: &[(&str, Option<&str>)]) -> ServerState {
    let mut st = ServerState::new();
    for (name, folder) in sessions {
        if let Some(f) = folder {
            if !st.folders.contains_key(*f) {
                st.create_folder(f).unwrap();
            }
        }
        st.create_session(
            name,
            *folder,
            BorderStyle::ZellijStyle,
            Default::default(),
            (80, 80),
        )
        .unwrap();
    }
    st
}

#[test]
fn take_dormant_session_migrates_one_session_from_persisted_state() {
    // A dormant snapshot with two sessions, one filed under "work".
    let dstate = state_with_sessions(&[("alpha", Some("work")), ("beta", None)]);
    let alpha_pane =
        all_pane_ids(&dstate.sessions.get("alpha").unwrap().tabs[0].layout)[0];
    let mut cwds = HashMap::new();
    cwds.insert(alpha_pane, "/tmp/alpha".to_string());
    let mut dormant = PersistedState {
        state: dstate,
        pane_cwds: cwds,
    };

    let mut live = ServerState::new();
    let got =
        take_dormant_session(&mut dormant, &mut live, "alpha").expect("alpha should resurrect");

    // alpha migrated into live with its folder membership recreated.
    assert!(live.sessions.contains_key("alpha"));
    assert!(live
        .folders
        .get("work")
        .unwrap()
        .session_ids
        .contains(&"alpha".to_string()));
    assert_eq!(got.get(&alpha_pane).unwrap(), "/tmp/alpha");

    // alpha (and its cwd) removed from dormant; beta remains dormant.
    assert!(!dormant.state.sessions.contains_key("alpha"));
    assert!(dormant.state.sessions.contains_key("beta"));
    assert!(dormant.pane_cwds.is_empty());

    // A name already live returns None (no double-resurrect).
    assert!(take_dormant_session(&mut dormant, &mut live, "alpha").is_none());
    // An unknown name returns None.
    assert!(take_dormant_session(&mut dormant, &mut live, "nope").is_none());
}

#[test]
fn merge_dormant_into_unions_live_and_dormant() {
    let mut target = PersistedState {
        state: state_with_sessions(&[("live1", None)]),
        pane_cwds: HashMap::new(),
    };
    let dormant = PersistedState {
        state: state_with_sessions(&[("dorm1", Some("f"))]),
        pane_cwds: HashMap::new(),
    };

    merge_dormant_into(&mut target, &dormant);

    assert!(target.state.sessions.contains_key("live1"));
    assert!(target.state.sessions.contains_key("dorm1"));
    assert!(target
        .state
        .folders
        .get("f")
        .unwrap()
        .session_ids
        .contains(&"dorm1".to_string()));
}

#[test]
fn merge_dormant_into_is_noop_when_dormant_empty() {
    // With nothing dormant, what is saved is the live state, unchanged.
    let mut target = PersistedState {
        state: state_with_sessions(&[("live1", None), ("live2", None)]),
        pane_cwds: HashMap::new(),
    };
    let before = format!("{target:?}");

    let empty = PersistedState {
        state: ServerState::new(),
        pane_cwds: HashMap::new(),
    };
    merge_dormant_into(&mut target, &empty);

    let after = format!("{target:?}");
    assert_eq!(before, after);
}
