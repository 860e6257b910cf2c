use clipsync::clipboard;
use clipsync::config::{
    export_app_data, load_app_data, AppData, ClipboardData, ClipboardType, RawAppData,
    RawClipboardData,
};
use clipsync::state::AppState;

#[test]
fn kind_conversion_round_trips() {
    let kinds = [ClipboardType::Text, ClipboardType::Image, ClipboardType::File];
    for k in kinds.iter() {
        let live = k.into_clipboard_type();
        let back = ClipboardType::from_clipboard_type(&live);
        assert_eq!(back, *k);
    }
    assert!(matches!(ClipboardType::Text.into_clipboard_type(), clipboard::ClipboardType::Text));
    assert!(matches!(ClipboardType::Image.into_clipboard_type(), clipboard::ClipboardType::Image));
    assert!(matches!(ClipboardType::File.into_clipboard_type(), clipboard::ClipboardType::File));
}

fn raw_entry(uuid: &str, data: &str) -> RawClipboardData {
    RawClipboardData {
        uuid: uuid.to_string(),
        data_type: ClipboardType::Text,
        data: data.to_string(),
        datetime: "2023-01-01T00:00:00+00:00".to_string(),
    }
}

#[test]
fn raw_data_converts_field_for_field() {
    let raw = RawAppData {
        history: vec![raw_entry("u1", "alpha"), raw_entry("u2", "beta")],
        server_address: Some("10.0.0.2".to_string()),
        server_port: 4242,
    };
    let data = raw.convert_to_app_data();
    assert_eq!(data.history.len(), 2);
    assert_eq!(data.history[0].uuid, "u1");
    assert_eq!(data.history[0].data, "alpha");
    assert_eq!(data.history[1].data, "beta");
    assert_eq!(data.server_address.as_deref(), Some("10.0.0.2"));
    assert_eq!(data.server_port, 4242);
}

#[test]
fn load_then_export_round_trips() {
    let data = AppData {
        history: vec![
            ClipboardData {
                uuid: "u1".to_string(),
                data_type: ClipboardType::Text,
                data: "hello".to_string(),
                datetime: "t1".to_string(),
            },
            ClipboardData {
                uuid: "u2".to_string(),
                data_type: ClipboardType::Image,
                data: "shot.png".to_string(),
                datetime: "t2".to_string(),
            },
        ],
        server_address: Some("peer.local".to_string()),
        server_port: 9000,
    };
    let mut state = AppState::new();
    load_app_data(&mut state, data, "/var/lib/clipsync".to_string());
    assert_eq!(state.app_folder_path, "/var/lib/clipsync");
    assert_eq!(state.server_port, 9000);
    assert_eq!(state.clipboard_history.len(), 2);
    assert!(matches!(state.clipboard_history[1].data_type, clipboard::ClipboardType::Image));
    let out = export_app_data(&state);
    assert_eq!(out.history.len(), 2);
    assert_eq!(out.history[0].uuid, "u1");
    assert_eq!(out.history[0].data, "hello");
    assert!(matches!(out.history[1].data_type, ClipboardType::Image));
    assert_eq!(out.history[1].data, "shot.png");
    assert_eq!(out.server_address.as_deref(), Some("peer.local"));
    assert_eq!(out.server_port, 9000);
}

#[test]
fn delete_app_data_empties_history_only() {
    let mut state = AppState::new();
    clipboard::add_text_clipboard_data(&mut state, "x".to_string(), Some("t".to_string()));
    clipsync::session::record_server_config(&mut state, "peer".to_string(), 8080);
    clipsync::config::delete_app_data(&mut state);
    assert!(state.clipboard_history.is_empty());
    assert_eq!(state.server_port, 8080);
}

#[test]
fn fresh_state_is_empty_text() {
    let state = AppState::default();
    assert_eq!(state.last_clipboard, clipboard::RawClipboardData::Text(String::new()));
    assert!(state.send_data_queue.is_empty());
    assert!(state.clipboard_history.is_empty());
    assert!(state.server_address.is_none());
    assert_eq!(state.server_port, 0);
    assert_eq!(state.app_folder_path, "");
}
