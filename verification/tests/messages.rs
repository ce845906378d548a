use refracted::msgsystem::host::{JoinContext, DEFAULT_MAP_PATH};
use refracted::msgsystem::log::{
    compact_key, compact_upsert_text, is_handshake_milestone, is_ping, relay_milestone_line,
    RelayDirection, RelayLogCompactor,
};
use refracted::msgsystem::messages::{
    decode_client_hello, decode_load_map_id, decode_ping_query, encode_load_map, encode_load_map_frame,
    encode_ping_reply, encode_server_hello_frame, encode_server_ready_to_start_frame, encode_start_game,
    frame_type_label, DEFAULT_PERSONA_ID, LOAD_MAP_TYPE_ID, PING_QUERY_TYPE_ID, PING_REPLY_TYPE_ID,
    SERVER_READY_TO_START_TYPE_ID, START_GAME_TYPE_ID,
};
use refracted::msgsystem::negotiation::{
    encode_protocol_version, encode_protocol_version_frame, CLIENT_CHANNEL_PROTOCOL_VERSION,
    PROTOCOL_VERSION_TYPE_ID,
};
use refracted::msgsystem::wire::{SimpleFrame, WireWriter};

#[test]
fn load_map_payload_len_scales_with_path() {
    let short = encode_load_map(1, "levels/SP/Foo/Foo");
    let long = encode_load_map(1, "levels/SP/Some_Long_Map_Name/Some_Long_Map_Name");
    assert!(long.payload.len() > short.payload.len());
    let (decoded, _) = SimpleFrame::try_read(&long.write()).unwrap().unwrap();
    assert_eq!(decoded.type_id, LOAD_MAP_TYPE_ID);
    assert_eq!(
        decode_load_map_id(&decoded.payload).as_deref(),
        Some("levels/SP/Some_Long_Map_Name/Some_Long_Map_Name")
    );
}

#[test]
fn ping_reply_round_trip_header() {
    let frame = encode_ping_reply(12345, 67890);
    assert_eq!(frame.type_id, PING_REPLY_TYPE_ID);
    assert_eq!(frame.payload.len(), 8);
    assert_eq!(u32::from_le_bytes(frame.payload[0..4].try_into().unwrap()), 12345);
    assert_eq!(u32::from_le_bytes(frame.payload[4..8].try_into().unwrap()), 67890);
}

#[test]
fn client_hello_decodes_persona() {
    let mut w = WireWriter::new();
    w.write_u64(DEFAULT_PERSONA_ID);
    assert_eq!(decode_client_hello(&w.into_bytes()), Some(DEFAULT_PERSONA_ID));
}

#[test]
fn start_game_has_expected_type_and_arrays() {
    let frame = encode_start_game(1, 0);
    assert_eq!(frame.type_id, START_GAME_TYPE_ID);
    assert!(frame.payload.len() >= 16);
    assert_eq!(u32::from_le_bytes(frame.payload[0..4].try_into().unwrap()), 0);
}

#[test]
fn server_ready_is_an_empty_payload_frame() {
    let encoded = encode_server_ready_to_start_frame();
    assert_eq!(encoded.len(), 6, "ServerReadyToStart must be empty-payload type 201");
    assert_eq!(&encoded[0..2], &SERVER_READY_TO_START_TYPE_ID.to_le_bytes());
    assert_eq!(&encoded[2..6], &[0, 0, 0, 0]);
}

#[test]
fn load_map_frame_is_header_plus_payload() {
    let map = "levels/SP/Alpha_Tutorial/Alpha_Tutorial";
    let frame = encode_load_map_frame(1, map);
    let (decoded, consumed) = SimpleFrame::try_read(&frame).unwrap().unwrap();
    assert_eq!(consumed, frame.len());
    assert_eq!(decoded.type_id, LOAD_MAP_TYPE_ID);
    assert_eq!(decode_load_map_id(&decoded.payload).as_deref(), Some(map));
}

#[test]
fn server_hello_frame_carries_type_200() {
    let frame = encode_server_hello_frame(1, DEFAULT_PERSONA_ID, 0, 0, 0);
    assert_eq!(&frame[0..2], &200u16.to_le_bytes());
    let (decoded, consumed) = SimpleFrame::try_read(&frame).unwrap().unwrap();
    assert_eq!(consumed, frame.len());
    assert_eq!(decoded.type_id, 200);
}

#[test]
fn ping_query_decodes_client_start_time() {
    assert_eq!(decode_ping_query(&[0x39, 0x30, 0, 0]), Some(12345));
    assert_eq!(decode_ping_query(&[0x39, 0x30, 0]), None);
    assert_eq!(decode_client_hello(&[1, 2, 3]), None);
}

#[test]
fn frame_labels_name_known_types() {
    assert_eq!(frame_type_label(LOAD_MAP_TYPE_ID), "LoadMap");
    assert_eq!(frame_type_label(PING_QUERY_TYPE_ID), "PingQuery");
}

#[test]
fn protocol_version_is_retail_client_shape() {
    let frame = encode_protocol_version();
    assert_eq!(frame.type_id, PROTOCOL_VERSION_TYPE_ID);
    assert_eq!(frame.payload.len(), 7);
    assert_eq!(
        u32::from_le_bytes(frame.payload[0..4].try_into().unwrap()),
        CLIENT_CHANNEL_PROTOCOL_VERSION
    );
    assert_eq!(&frame.payload[4..], &[1, 0, 0]);
    assert_eq!(encode_protocol_version_frame().len(), 13);
}

#[test]
fn join_context_defaults_are_retail_shaped() {
    let ctx = JoinContext::default();
    assert_eq!(ctx.player_handle, 1);
    assert_eq!(ctx.persona, DEFAULT_PERSONA_ID);
    assert!(!ctx.map_path.is_empty());
    assert_eq!(ctx.map_path, DEFAULT_MAP_PATH);
}

#[test]
fn ping_frames_are_not_milestones() {
    assert!(!is_handshake_milestone(PING_QUERY_TYPE_ID));
    assert!(is_handshake_milestone(LOAD_MAP_TYPE_ID));
}

#[test]
fn relay_milestone_line_is_readable() {
    let line = relay_milestone_line(RelayDirection::RtsToClient, "LoadMap");
    assert!(line.contains("LoadMap"));
    assert!(line.to_lowercase().contains("hub"));
}

#[test]
fn pings_are_counted_per_direction_and_type() {
    assert!(is_ping(PING_QUERY_TYPE_ID));
    assert!(is_ping(PING_REPLY_TYPE_ID));
    assert!(!is_ping(LOAD_MAP_TYPE_ID));
    let mut c = RelayLogCompactor::new();
    assert_eq!(c.note_ping(RelayDirection::ClientToRts, PING_QUERY_TYPE_ID), 1);
    assert_eq!(c.note_ping(RelayDirection::ClientToRts, PING_QUERY_TYPE_ID), 2);
    assert_eq!(c.note_ping(RelayDirection::RtsToClient, PING_QUERY_TYPE_ID), 1);
    assert_eq!(c.note_ping(RelayDirection::ClientToRts, PING_REPLY_TYPE_ID), 1);
    c.clear();
    assert_eq!(c.note_ping(RelayDirection::ClientToRts, PING_QUERY_TYPE_ID), 1);
    assert_ne!(
        compact_key(RelayDirection::ClientToRts, PING_QUERY_TYPE_ID),
        compact_key(RelayDirection::RtsToClient, PING_QUERY_TYPE_ID)
    );
    assert_eq!(compact_key(RelayDirection::ClientToRts, PING_QUERY_TYPE_ID), "RTS|C2R|106");
    assert_eq!(compact_upsert_text("ping", 3), "ping x3");
    assert_eq!(compact_upsert_text("ping", 1), "ping");
}
