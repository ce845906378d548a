use refracted::msgsystem::wire::{zag32, zag64, zig32, zig64, Envelope, SimpleFrame, WireError, WireReader, WireWriter};

#[test]
fn simple_frame_roundtrip() {
    let f = SimpleFrame {
        type_id: 1,
        payload: vec![0xAA, 0xBB, 0xCC],
    };
    let bytes = f.write();
    assert_eq!(&bytes[0..2], &1u16.to_le_bytes());
    assert_eq!(&bytes[2..6], &3u32.to_le_bytes());
    let (decoded, consumed) = SimpleFrame::try_read(&bytes).unwrap().unwrap();
    assert_eq!(decoded, f);
    assert_eq!(consumed, bytes.len());
    // Partial header / partial payload -> None.
    assert_eq!(SimpleFrame::try_read(&bytes[..5]).unwrap(), None);
    assert_eq!(SimpleFrame::try_read(&bytes[..bytes.len() - 1]).unwrap(), None);
}

#[test]
fn varint_unsigned_matches_leb128() {
    let mut w = WireWriter::new();
    w.write_var_u32(0);
    w.write_var_u32(127);
    w.write_var_u32(128);
    w.write_var_u32(300);
    w.write_var_u32(u32::MAX);
    assert_eq!(&w.as_slice()[0..1], &[0x00]);
    let mut r = WireReader::new(w.as_slice());
    assert_eq!(r.read_var_u32().unwrap(), 0);
    assert_eq!(r.read_var_u32().unwrap(), 127);
    assert_eq!(r.read_var_u32().unwrap(), 128);
    assert_eq!(r.read_var_u32().unwrap(), 300);
    assert_eq!(r.read_var_u32().unwrap(), u32::MAX);
}

#[test]
fn varint_signed_zigzag_roundtrip() {
    for v in [0i32, -1, 1, -2, 2, i32::MIN, i32::MAX, 123456, -123456] {
        let mut w = WireWriter::new();
        w.write_var_i32(v);
        let mut r = WireReader::new(w.as_slice());
        assert_eq!(r.read_var_i32().unwrap(), v, "i32 zigzag roundtrip {v}");
    }
    let mut w = WireWriter::new();
    w.write_var_i32(-1);
    assert_eq!(w.as_slice()[0], 1);
    let mut w = WireWriter::new();
    w.write_var_i32(1);
    assert_eq!(w.as_slice()[0], 2);
}

#[test]
fn var_i64_roundtrip() {
    for v in [0i64, -1, 1, i64::MIN, i64::MAX, 20003656600213] {
        let mut w = WireWriter::new();
        w.write_var_i64(v);
        let mut r = WireReader::new(w.as_slice());
        assert_eq!(r.read_var_i64().unwrap(), v);
    }
}

#[test]
fn string_reference_and_null() {
    let mut w = WireWriter::new();
    w.write_string(Some("RtsBlazeClient"));
    w.write_string(None);
    w.write_string(Some(""));
    assert_eq!(w.as_slice()[0], 1);
    assert_eq!(w.as_slice()[1], 28);
    let mut r = WireReader::new(w.as_slice());
    assert_eq!(r.read_string().unwrap().as_deref(), Some("RtsBlazeClient"));
    assert_eq!(r.read_string().unwrap(), None);
    assert_eq!(r.read_string().unwrap().as_deref(), Some(""));
}

#[test]
fn envelope_roundtrip() {
    let env = Envelope {
        sender: vec![],
        receiver: vec![],
        type_id: 7,
        payload: vec![1, 2, 3, 4, 5],
    };
    let bytes = env.write();
    assert_eq!(&bytes[0..4], &15u32.to_le_bytes());
    let (decoded, consumed) = Envelope::try_read(&bytes).unwrap().unwrap();
    assert_eq!(decoded, env);
    assert_eq!(consumed, bytes.len());
}

#[test]
fn envelope_partial_returns_none() {
    let env = Envelope {
        sender: vec![9, 9],
        receiver: vec![],
        type_id: 1,
        payload: vec![0; 10],
    };
    let bytes = env.write();
    assert_eq!(Envelope::try_read(&bytes[..bytes.len() - 1]).unwrap(), None);
    assert_eq!(Envelope::try_read(&bytes[..3]).unwrap(), None);
    let (decoded, _) = Envelope::try_read(&bytes).unwrap().unwrap();
    assert_eq!(decoded.sender, vec![9, 9]);
}

#[test]
fn fixed_integers_are_little_endian() {
    let mut w = WireWriter::new();
    w.write_u16(0x1234);
    w.write_u32(0xDEADBEEF);
    w.write_i64(-2);
    assert_eq!(&w.as_slice()[0..2], &[0x34, 0x12]);
    assert_eq!(&w.as_slice()[2..6], &[0xEF, 0xBE, 0xAD, 0xDE]);
    let mut r = WireReader::new(w.as_slice());
    assert_eq!(r.read_u16().unwrap(), 0x1234);
    assert_eq!(r.read_u32().unwrap(), 0xDEADBEEF);
    assert_eq!(r.read_i64().unwrap(), -2);
    assert_eq!(r.remaining(), 0);
}

#[test]
fn zigzag_maps_small_magnitudes_to_small_codes() {
    assert_eq!(zig32(0), 0);
    assert_eq!(zig32(-1), 1);
    assert_eq!(zig32(1), 2);
    assert_eq!(zig32(-2), 3);
    assert_eq!(zig32(i32::MIN), u32::MAX);
    assert_eq!(zag32(u32::MAX), i32::MIN);
    assert_eq!(zig64(-3), 5);
    assert_eq!(zag64(5), -3);
}

#[test]
fn reading_past_the_end_is_an_error() {
    let bytes = [0x01u8];
    let mut r = WireReader::new(&bytes);
    assert!(r.read_u16().is_err());
    let mut r = WireReader::new(&[0x80u8, 0x80]);
    assert!(r.read_var_u32().is_err());
    let _ = WireError::UnexpectedEof;
}

#[test]
fn fixed_ints_roundtrip_little_endian() {
    let mut w = WireWriter::new();
    w.write_u16(0x1234);
    w.write_u32(0xDEADBEEF);
    w.write_i64(-2);
    // Confirm little-endian byte order for the u16.
    assert_eq!(&w.as_slice()[0..2], &[0x34, 0x12]);
    let mut r = WireReader::new(w.as_slice());
    assert_eq!(r.read_u16().unwrap(), 0x1234);
    assert_eq!(r.read_u32().unwrap(), 0xDEADBEEF);
    assert_eq!(r.read_i64().unwrap(), -2);
}
