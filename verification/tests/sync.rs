use clipsync::clipboard::{
    add_image_clipboard_data, add_text_clipboard_data, apply_message, apply_remote_at,
    copy_clipboard_from, delete_clipboard_history, get_clipboard_history, poll_once, poll_once_at,
    process_incoming, ClipboardType, RawClipboardData,
};
use clipsync::state::AppState;
use clipsync::tcp::{
    drain_send_queue, encode_tcp_data, push_blob_to_send_queue, push_data_to_send_queue,
    push_image_to_send_queue, push_text_to_send_queue, TcpData, TcpDataType,
};

fn text_snapshot(s: &str) -> RawClipboardData {
    RawClipboardData::Text(s.to_string())
}

#[test]
fn fifo_enqueue_three_drain_three() {
    let mut state = AppState::new();
    push_text_to_send_queue(&mut state, "m1".to_string());
    push_text_to_send_queue(&mut state, "m2".to_string());
    push_text_to_send_queue(&mut state, "m3".to_string());
    let drained = drain_send_queue(&mut state);
    assert_eq!(drained.len(), 3);
    assert_eq!(drained[0].data, "m1");
    assert_eq!(drained[1].data, "m2");
    assert_eq!(drained[2].data, "m3");
    assert!(drain_send_queue(&mut state).is_empty());
}

#[test]
fn detector_emits_one_message_for_text_change() {
    // Scenario: the clipboard goes from "a" to "hello".
    let mut state = AppState::new();
    state.last_clipboard = text_snapshot("a");
    let entry = poll_once_at(
        &mut state,
        &text_snapshot("hello"),
        "id-1".to_string(),
        "2024-01-01T00:00:00+00:00".to_string(),
    );
    let entry = entry.unwrap();
    assert!(matches!(entry.data_type, ClipboardType::Text));
    assert_eq!(entry.data, "hello");
    let outbound = drain_send_queue(&mut state);
    assert_eq!(outbound.len(), 1);
    assert_eq!(
        encode_tcp_data(&outbound[0]),
        "{\"data_type\":\"Text\",\"data\":\"hello\"}"
    );
    let history = get_clipboard_history(&state);
    assert_eq!(history.len(), 1);
    assert!(matches!(history[0].data_type, ClipboardType::Text));
    assert_eq!(history[0].data, "hello");
}

#[test]
fn detector_is_quiet_without_a_change() {
    let mut state = AppState::new();
    state.last_clipboard = text_snapshot("same");
    let r = poll_once_at(
        &mut state,
        &text_snapshot("same"),
        "id-2".to_string(),
        "t".to_string(),
    );
    assert!(r.is_none());
    assert!(drain_send_queue(&mut state).is_empty());
    assert!(get_clipboard_history(&state).is_empty());
}

#[test]
fn incoming_text_applies_and_next_tick_sends_nothing() {
    // Scenario: the peer sends "world"; the next detector tick must not
    // echo it back.
    let mut state = AppState::new();
    let (entries, used) =
        process_incoming(&mut state, "{\"data_type\":\"Text\",\"data\":\"world\"}");
    assert_eq!(used, 35);
    assert_eq!(entries.len(), 1);
    assert_eq!(entries[0].data, "world");
    assert_eq!(state.last_clipboard, text_snapshot("world"));
    assert_eq!(get_clipboard_history(&state).len(), 1);
    // The next detector tick reads the value just written.
    let r = poll_once(&mut state, &text_snapshot("world"));
    assert!(r.is_none());
    assert!(drain_send_queue(&mut state).is_empty());
}

#[test]
fn applying_the_same_message_twice_changes_state_once() {
    let mut state = AppState::new();
    let msg = TcpData { data_type: TcpDataType::Text, data: "twice".to_string() };
    let first = apply_message(&mut state, &msg, "u1".to_string(), "d1".to_string()).unwrap();
    assert!(first.is_some());
    let second = apply_message(&mut state, &msg, "u2".to_string(), "d2".to_string()).unwrap();
    assert!(second.is_none());
    assert_eq!(get_clipboard_history(&state).len(), 1);
    assert!(drain_send_queue(&mut state).is_empty());
}

#[test]
fn alternating_changes_send_only_genuine_locals() {
    let mut state = AppState::new();
    // Genuine local change.
    poll_once_at(&mut state, &text_snapshot("a"), "u1".to_string(), "t1".to_string());
    // Remote update applied; must not be re-sent.
    apply_remote_at(&mut state, &text_snapshot("b"), "u2".to_string(), "t2".to_string());
    // The detector then reads the remotely applied value: no change seen.
    poll_once_at(&mut state, &text_snapshot("b"), "u3".to_string(), "t3".to_string());
    // A second genuine local change.
    poll_once_at(&mut state, &text_snapshot("c"), "u4".to_string(), "t4".to_string());
    let outbound = drain_send_queue(&mut state);
    assert_eq!(outbound.len(), 2);
    assert_eq!(outbound[0].data, "a");
    assert_eq!(outbound[1].data, "c");
}

#[test]
fn incoming_image_is_applied_with_file_name() {
    let raw: Vec<u8> = vec![1, 2, 3, 4, 5, 6, 7, 8];
    let payload = clipsync::tcp::make_image_payload(2, 1, &raw);
    let msg = TcpData { data_type: TcpDataType::Image, data: payload };
    let mut state = AppState::new();
    let entry = apply_message(&mut state, &msg, "img-uuid".to_string(), "t".to_string())
        .unwrap()
        .unwrap();
    assert!(matches!(entry.data_type, ClipboardType::Image));
    assert_eq!(entry.data, "img-uuid.png");
    match &state.last_clipboard {
        RawClipboardData::Image { width, height, bytes } => {
            assert_eq!((*width, *height), (2, 1));
            assert_eq!(bytes, &raw);
        },
        _ => panic!("expected an image snapshot"),
    }
}

#[test]
fn incoming_malformed_image_drops_message_only() {
    let msg = TcpData { data_type: TcpDataType::Image, data: "too short".to_string() };
    let mut state = AppState::new();
    let r = apply_message(&mut state, &msg, "u".to_string(), "t".to_string());
    assert_eq!(r.unwrap_err(), clipsync::errors::SyncError::DecodeError);
    assert!(get_clipboard_history(&state).is_empty());
}

#[test]
fn incoming_blob_and_command_are_ignored() {
    let mut state = AppState::new();
    let blob = TcpData { data_type: TcpDataType::Blob, data: "QQ==".to_string() };
    let cmd = TcpData { data_type: TcpDataType::Command, data: "x".to_string() };
    assert!(apply_message(&mut state, &blob, "u".to_string(), "t".to_string()).unwrap().is_none());
    assert!(apply_message(&mut state, &cmd, "u".to_string(), "t".to_string()).unwrap().is_none());
    assert!(get_clipboard_history(&state).is_empty());
}

#[test]
fn local_image_change_is_queued_with_header() {
    let raw: Vec<u8> = vec![9, 8, 7, 6, 5, 4, 3, 2, 1, 0, 1, 2];
    let snap = RawClipboardData::Image { width: 3, height: 1, bytes: raw };
    let mut state = AppState::new();
    let entry = poll_once_at(&mut state, &snap, "pic".to_string(), "t".to_string()).unwrap();
    assert_eq!(entry.data, "pic.png");
    let outbound = drain_send_queue(&mut state);
    assert_eq!(outbound.len(), 1);
    assert!(matches!(outbound[0].data_type, TcpDataType::Image));
    assert!(outbound[0].data.starts_with("3         1         "));
}

#[test]
fn push_blob_base64_encodes() {
    let mut state = AppState::new();
    push_blob_to_send_queue(&mut state, b"abc".to_vec());
    let outbound = drain_send_queue(&mut state);
    assert_eq!(outbound.len(), 1);
    assert!(matches!(outbound[0].data_type, TcpDataType::Blob));
    assert_eq!(outbound[0].data, "YWJj");
}

#[test]
fn push_data_keeps_message_as_given() {
    let mut state = AppState::new();
    push_data_to_send_queue(
        &mut state,
        TcpData { data_type: TcpDataType::Command, data: "noop".to_string() },
    );
    let outbound = drain_send_queue(&mut state);
    assert_eq!(outbound[0].data, "noop");
}

#[test]
fn push_image_builds_wire_payload() {
    let mut state = AppState::new();
    push_image_to_send_queue(&mut state, 1, 1, &vec![b'a', b'b', b'c', b'd']);
    let outbound = drain_send_queue(&mut state);
    assert_eq!(outbound[0].data, "1         1         YWJjZA==");
}

#[test]
fn history_entries_carry_given_timestamp() {
    let mut state = AppState::new();
    let e1 = add_text_clipboard_data(
        &mut state,
        "note".to_string(),
        Some("2023-06-01T10:00:00+00:00".to_string()),
    );
    assert_eq!(e1.datetime, "2023-06-01T10:00:00+00:00");
    assert_eq!(e1.data, "note");
    assert_eq!(e1.uuid.len(), 36);
    let e2 = add_image_clipboard_data(&mut state, "shot.png".to_string(), None);
    assert_eq!(e2.data, "shot.png");
    assert!(matches!(e2.data_type, ClipboardType::Image));
    assert_eq!(get_clipboard_history(&state).len(), 2);
}

#[test]
fn copy_from_known_uuid_requeues_text() {
    let mut state = AppState::new();
    add_text_clipboard_data(&mut state, "first".to_string(), Some("t1".to_string()));
    let uuid = get_clipboard_history(&state)[0].uuid.clone();
    let copied = copy_clipboard_from(&mut state, &uuid).unwrap();
    assert_eq!(copied, "first");
    assert_eq!(state.last_clipboard, text_snapshot("first"));
    let outbound = drain_send_queue(&mut state);
    assert_eq!(outbound.len(), 1);
    assert_eq!(outbound[0].data, "first");
    assert_eq!(get_clipboard_history(&state).len(), 2);
}

#[test]
fn copy_from_unknown_uuid_changes_nothing() {
    let mut state = AppState::new();
    add_text_clipboard_data(&mut state, "only".to_string(), Some("t".to_string()));
    assert!(copy_clipboard_from(&mut state, "no-such-uuid").is_none());
    assert!(drain_send_queue(&mut state).is_empty());
    assert_eq!(get_clipboard_history(&state).len(), 1);
}

#[test]
fn delete_removes_only_the_named_entry() {
    let mut state = AppState::new();
    add_text_clipboard_data(&mut state, "keep".to_string(), Some("t1".to_string()));
    add_text_clipboard_data(&mut state, "drop".to_string(), Some("t2".to_string()));
    let victim = get_clipboard_history(&state)[1].uuid.clone();
    delete_clipboard_history(&mut state, &victim);
    let history = get_clipboard_history(&state);
    assert_eq!(history.len(), 1);
    assert_eq!(history[0].data, "keep");
}

#[test]
fn two_concatenated_incoming_messages_both_apply() {
    let mut state = AppState::new();
    let buffer = format!(
        "{}{}",
        "{\"data_type\":\"Text\",\"data\":\"one\"}", "{\"data_type\":\"Text\",\"data\":\"two\"}"
    );
    let (entries, used) = process_incoming(&mut state, &buffer);
    assert_eq!(entries.len(), 2);
    assert_eq!(entries[0].data, "one");
    assert_eq!(entries[1].data, "two");
    assert_eq!(used, buffer.chars().count());
    assert_eq!(state.last_clipboard, text_snapshot("two"));
}

#[test]
fn snapshot_equality_is_by_content() {
    assert_eq!(text_snapshot("x"), text_snapshot("x"));
    assert_ne!(text_snapshot("x"), text_snapshot("y"));
    let img1 = RawClipboardData::Image { width: 1, height: 1, bytes: vec![0] };
    let img2 = RawClipboardData::Image { width: 1, height: 1, bytes: vec![0] };
    let img3 = RawClipboardData::Image { width: 1, height: 1, bytes: vec![1] };
    assert_eq!(img1, img2);
    assert_ne!(img1, img3);
    assert_ne!(img1, text_snapshot("x"));
}
