use refracted::msgsystem::messages::{encode_load_map_frame, ALLOW_INPUT_CHANGE_TYPE_ID, CLIENT_HELLO_TYPE_ID, LOAD_MAP_TYPE_ID};
use refracted::msgsystem::relay::{drain_relay_frames, persona_from_hello_buf, relay_note};

fn frame(type_id: u16, payload: &[u8]) -> Vec<u8> {
    let mut v = Vec::new();
    v.extend_from_slice(&type_id.to_le_bytes());
    v.extend_from_slice(&(payload.len() as u32).to_le_bytes());
    v.extend_from_slice(payload);
    v
}

#[test]
fn notes_of_relayed_frames() {
    assert_eq!(relay_note(ALLOW_INPUT_CHANGE_TYPE_ID, &[0x01, 0xab]), "payload=01ab");
    assert_eq!(relay_note(7, &[1, 2, 3]), "relay");
    assert_eq!(relay_note(LOAD_MAP_TYPE_ID, &[1]), "relay");
    let lm = encode_load_map_frame(3, "Levels/MP/Oasis");
    let payload = &lm[6..];
    assert_eq!(relay_note(LOAD_MAP_TYPE_ID, payload), "LoadMap \"Levels/MP/Oasis\"");
}

#[test]
fn complete_frames_leave_the_buffer() {
    let mut buf = frame(7, &[9, 9]);
    buf.extend(frame(ALLOW_INPUT_CHANGE_TYPE_ID, &[1]));
    buf.extend_from_slice(&[5, 0, 10, 0]);
    let frames = drain_relay_frames(&mut buf);
    assert_eq!(frames.len(), 2);
    assert_eq!((frames[0].type_id, frames[0].payload_len, frames[0].note.as_str()), (7, 2, "relay"));
    assert_eq!(frames[1].note, "payload=01");
    assert_eq!(buf, vec![5, 0, 10, 0]);
    assert!(drain_relay_frames(&mut buf).is_empty());
    assert_eq!(buf, vec![5, 0, 10, 0]);
}

#[test]
fn persona_of_a_client_hello() {
    let mut buf = frame(7, &[1, 2]);
    buf.extend(frame(CLIENT_HELLO_TYPE_ID, &1234u64.to_le_bytes()));
    assert_eq!(persona_from_hello_buf(&buf), Some(1234));
    assert_eq!(persona_from_hello_buf(&frame(CLIENT_HELLO_TYPE_ID, &0u64.to_le_bytes())), None);
    assert_eq!(persona_from_hello_buf(&frame(CLIENT_HELLO_TYPE_ID, &[1, 2])), None);
    assert_eq!(persona_from_hello_buf(&buf[..8]), None);
}
