use clipsync::errors::SyncError;
use clipsync::tcp::{
    encode_tcp_data, make_image_payload, parse_image_payload, parse_tcp_data, split_json, TcpData,
    TcpDataType,
};
use clipsync::wire::find_json_end;

fn text_msg(s: &str) -> TcpData {
    TcpData { data_type: TcpDataType::Text, data: s.to_string() }
}

#[test]
fn encode_text_exact() {
    let encoded = encode_tcp_data(&text_msg("hello"));
    assert_eq!(encoded, "{\"data_type\":\"Text\",\"data\":\"hello\"}");
}

#[test]
fn encode_escapes_quote_backslash_and_newline() {
    let encoded = encode_tcp_data(&text_msg("a\"b\\c\nd"));
    assert_eq!(encoded, "{\"data_type\":\"Text\",\"data\":\"a\\\"b\\\\c\\nd\"}");
}

#[test]
fn encode_escapes_control_char_as_hex() {
    let encoded = encode_tcp_data(&text_msg("\u{0001}"));
    assert_eq!(encoded, "{\"data_type\":\"Text\",\"data\":\"\\u0001\"}");
}

#[test]
fn encode_kind_names() {
    let blob = TcpData { data_type: TcpDataType::Blob, data: "QQ==".to_string() };
    assert_eq!(encode_tcp_data(&blob), "{\"data_type\":\"Blob\",\"data\":\"QQ==\"}");
    let cmd = TcpData { data_type: TcpDataType::Command, data: String::new() };
    assert_eq!(encode_tcp_data(&cmd), "{\"data_type\":\"Command\",\"data\":\"\"}");
}

#[test]
fn parse_single_message() {
    let msg = parse_tcp_data("{\"data_type\":\"Text\",\"data\":\"world\"}").unwrap();
    assert!(matches!(msg.data_type, TcpDataType::Text));
    assert_eq!(msg.data, "world");
}

#[test]
fn parse_accepts_whitespace_between_tokens() {
    let msg = parse_tcp_data("{ \"data_type\" : \"Image\" , \"data\" : \"x\" }").unwrap();
    assert!(matches!(msg.data_type, TcpDataType::Image));
    assert_eq!(msg.data, "x");
}

#[test]
fn parse_undoes_escapes() {
    let msg = parse_tcp_data("{\"data_type\":\"Text\",\"data\":\"a\\\"b\\\\c\\nd\\u0001\"}")
        .unwrap();
    assert_eq!(msg.data, "a\"b\\c\nd\u{0001}");
}

#[test]
fn parse_rejects_unknown_kind() {
    let r = parse_tcp_data("{\"data_type\":\"Video\",\"data\":\"x\"}");
    assert_eq!(r.unwrap_err(), SyncError::DecodeError);
}

#[test]
fn parse_rejects_swapped_fields() {
    let r = parse_tcp_data("{\"data\":\"x\",\"data_type\":\"Text\"}");
    assert_eq!(r.unwrap_err(), SyncError::DecodeError);
}

#[test]
fn find_json_end_simple_object() {
    assert_eq!(find_json_end("{\"a\":\"b\"}").unwrap(), 9);
}

#[test]
fn find_json_end_ignores_braces_inside_strings() {
    assert_eq!(find_json_end("{\"a\":\"}{\"}xyz").unwrap(), 10);
}

#[test]
fn find_json_end_honours_escaped_quotes() {
    // The string value holds an escaped quote and then a brace.
    let buffer = "{\"a\":\"\\\"}\"}";
    assert_eq!(find_json_end(buffer).unwrap(), buffer.chars().count());
}

#[test]
fn find_json_end_truncated_is_error() {
    assert_eq!(find_json_end("{\"a\":\"b\"").unwrap_err(), SyncError::DecodeError);
    assert_eq!(find_json_end("").unwrap_err(), SyncError::DecodeError);
}

#[test]
fn split_two_concatenated_messages_in_order() {
    let first = encode_tcp_data(&text_msg("one"));
    let second = encode_tcp_data(&text_msg("two"));
    let buffer = format!("{}{}", first, second);
    let (msgs, used) = split_json(&buffer);
    assert_eq!(msgs.len(), 2);
    assert_eq!(msgs[0].data, "one");
    assert_eq!(msgs[1].data, "two");
    assert_eq!(used, buffer.chars().count());
}

#[test]
fn split_truncated_yields_nothing() {
    let whole = encode_tcp_data(&text_msg("payload"));
    let cut: String = whole.chars().take(whole.chars().count() - 3).collect();
    let (msgs, used) = split_json(&cut);
    assert_eq!(msgs.len(), 0);
    assert_eq!(used, 0);
}

#[test]
fn split_keeps_fragment_after_whole_message() {
    let whole = encode_tcp_data(&text_msg("done"));
    let buffer = format!("{}{{\"data_type\":\"Te", whole);
    let (msgs, used) = split_json(&buffer);
    assert_eq!(msgs.len(), 1);
    assert_eq!(msgs[0].data, "done");
    assert_eq!(used, whole.chars().count());
}

#[test]
fn split_drops_undecodable_object_and_goes_on() {
    let bad = "{\"other\":\"x\"}";
    let good = encode_tcp_data(&text_msg("kept"));
    let buffer = format!("{}{}", bad, good);
    let (msgs, used) = split_json(&buffer);
    assert_eq!(msgs.len(), 1);
    assert_eq!(msgs[0].data, "kept");
    assert_eq!(used, buffer.chars().count());
}

#[test]
fn round_trip_text_message() {
    let original = text_msg("héllo \"wörld\"\n\ttab");
    let encoded = encode_tcp_data(&original);
    let back = parse_tcp_data(&encoded).unwrap();
    assert!(matches!(back.data_type, TcpDataType::Text));
    assert_eq!(back.data, original.data);
}

#[test]
fn image_payload_exact_layout() {
    let payload = make_image_payload(1, 1, &vec![b'a', b'b', b'c', b'd']);
    assert_eq!(payload, "1         1         YWJjZA==");
}

#[test]
fn image_payload_round_trip_recovers_dimensions() {
    // A 12-by-5 RGBA image: 4 * 12 * 5 = 240 pixel bytes.
    let raw: Vec<u8> = (0..240u32).map(|i| (i % 251) as u8).collect();
    let payload = make_image_payload(12, 5, &raw);
    let (w, h, bytes) = parse_image_payload(&payload).unwrap();
    assert_eq!(w, 12);
    assert_eq!(h, 5);
    assert_eq!(bytes, raw);
}

#[test]
fn image_payload_decode_exact_base64() {
    let (w, h, bytes) = parse_image_payload("1         1         YWJjZA==").unwrap();
    assert_eq!((w, h), (1, 1));
    assert_eq!(bytes, b"abcd".to_vec());
}

#[test]
fn image_payload_wrong_byte_count_is_error() {
    // The header says 3 by 2, so 24 pixel bytes are owed; only 3 arrive.
    let r = parse_image_payload("3         2         YWJj");
    assert_eq!(r.unwrap_err(), SyncError::DecodeError);
}

#[test]
fn image_payload_short_buffer_is_error() {
    assert_eq!(parse_image_payload("3   2").unwrap_err(), SyncError::DecodeError);
}

#[test]
fn image_payload_bad_dimension_is_error() {
    let r = parse_image_payload("abc       2         YWJj");
    assert_eq!(r.unwrap_err(), SyncError::DecodeError);
}

#[test]
fn image_payload_zero_dimension_is_error() {
    let r = parse_image_payload("0         2         YWJj");
    assert_eq!(r.unwrap_err(), SyncError::DecodeError);
}

#[test]
fn image_payload_bad_base64_is_error() {
    let r = parse_image_payload("3         2         !!!!");
    assert_eq!(r.unwrap_err(), SyncError::DecodeError);
}

#[test]
fn round_trip_image_message_over_the_wire() {
    let raw: Vec<u8> = (0u8..32).collect();
    let payload = make_image_payload(4, 2, &raw);
    let original = TcpData { data_type: TcpDataType::Image, data: payload };
    let encoded = encode_tcp_data(&original);
    let (msgs, used) = split_json(&encoded);
    assert_eq!(msgs.len(), 1);
    assert_eq!(used, encoded.chars().count());
    assert!(matches!(msgs[0].data_type, TcpDataType::Image));
    let (w, h, bytes) = parse_image_payload(&msgs[0].data).unwrap();
    assert_eq!((w, h), (4, 2));
    assert_eq!(bytes, raw);
}
