//! Paths, frames, and connections.

use remux::client::Drag;
use remux::clients::Clients;
use remux::connection::{autoscroll_replays, handle_client_disconnect, handle_new_connection};
use remux::message::Measure;
use remux::paths::{pid_path, runtime_file, socket_path};
use remux::wire::{decode_message_length, encode_message};
use std::collections::HashMap;

#[test]
fn a_frame_reads_back() {
    let payload: Vec<u8> = (0..300u32).map(|i| i as u8).collect();
    let frame = encode_message(&payload).unwrap();
    assert_eq!(&frame[..4], &[0, 0, 1, 44]);
    let mut header = [0u8; 4];
    header.copy_from_slice(&frame[..4]);
    assert_eq!(decode_message_length(&header) as usize, payload.len());
    assert_eq!(&frame[4..], &payload[..]);
    assert_eq!(decode_message_length(&[0x12, 0x34, 0x56, 0x78]), 0x12345678);
}

#[test]
fn an_empty_payload_is_a_frame() {
    assert_eq!(encode_message(&Vec::new()).unwrap(), vec![0, 0, 0, 0]);
}

#[test]
fn the_files_lie_in_the_first_directory_that_is_known() {
    let run = b"/run/user/1".to_vec();
    assert_eq!(runtime_file(Some(&run), Some("/x"), "a"), b"/run/user/1/a");
    assert_eq!(runtime_file(None, Some("/x/"), "a"), b"/x/a");
    assert_eq!(runtime_file(None, None, "a"), b"/tmp/a");
    assert_eq!(runtime_file(None, Some(""), "a"), b"a");
    let odd = vec![b'/', 0xff];
    assert_eq!(runtime_file(Some(&odd), None, "a"), vec![b'/', 0xff, b'/', b'a']);
}

#[test]
fn socket_and_pid_file_lie_in_the_runtime_directory() {
    let known = dirs::runtime_dir().unwrap_or_else(|| "/somewhere".into());
    let path = |name: &str| known.join(name).into_os_string().into_encoded_bytes();
    assert_eq!(socket_path(Some("/somewhere")), path("remux.sock"));
    assert_eq!(pid_path(Some("/somewhere")), path("remux.pid"));
}

#[test]
fn every_client_has_its_own_id() {
    let mut next = 0;
    let mut clients = Clients::new();
    let a = handle_new_connection(&mut next, &mut clients);
    let b = handle_new_connection(&mut next, &mut clients);
    let mut frames = HashMap::from([(a, Vec::new()), (b, Vec::new())]);
    let reply = handle_client_disconnect(a, &mut clients, &mut frames);
    assert!(!frames.contains_key(&a) && frames.contains_key(&b));
    let c = handle_new_connection(&mut next, &mut clients);
    assert_eq!((a, b, c), (0, 1, 2));
    assert!(reply.tree_changed);
    assert_eq!(reply.measure, Measure::Watched);
    assert_eq!(clients.find(a), None);
    assert_eq!(clients.find(b), Some(0));
    let fresh = &clients.entries[1].1;
    assert_eq!((fresh.cols, fresh.rows, fresh.mode.as_str()), (80, 24, "NORMAL"));
    assert_eq!(fresh.session_name, None);
}

#[test]
fn an_unknown_client_leaves_the_others_alone() {
    let mut next = 5;
    let mut clients = Clients::new();
    handle_new_connection(&mut next, &mut clients);
    handle_client_disconnect(77, &mut clients, &mut HashMap::new());
    assert_eq!(clients.entries.len(), 1);
}

#[test]
fn a_resting_drag_is_replayed() {
    let mut next = 0;
    let mut clients = Clients::new();
    handle_new_connection(&mut next, &mut clients);
    let c = &mut clients.entries[0].1;
    assert!(autoscroll_replays(c).is_empty());
    c.autoscroll_repeat = Some((1, 2, 3, 4));
    c.pane_autoscroll_repeat = Some((9, 5, 6, 7, 8));
    let own = Drag { start_x: 1, start_y: 2, end_x: 3, end_y: 4, is_final: false };
    let pane = Drag { start_x: 5, start_y: 6, end_x: 7, end_y: 8, is_final: false };
    assert_eq!(autoscroll_replays(c), vec![(own, None), (pane, Some(9))]);
}
