//! What the MessageSystem relay reads of the bytes it forwards: the frames in
//! its parse buffer, the note logged with each, and the persona of a
//! `ClientHello`.
use vstd::prelude::*;
use crate::msgsystem::messages::{
    decode_client_hello, decode_load_map_id, load_map_id_of, ALLOW_INPUT_CHANGE_TYPE_ID, CLIENT_HELLO_TYPE_ID,
    LOAD_MAP_TYPE_ID,
};
use crate::msgsystem::wire::{le_value, simple_frame_parse, SimpleFrame};
use crate::text::{chars_to_string, push_chars, push_str, str_chars};

verus! {

broadcast use vstd::string::group_string_axioms;

/// A lower-case hexadecimal digit.
pub open spec fn hex_digit(n: nat) -> char {
    if n < 10 {
        (48 + n) as char
    } else {
        (87 + n) as char
    }
}

/// Two lower-case hexadecimal digits per byte, high nibble first.
pub open spec fn hex_lower(b: Seq<u8>) -> Seq<char>
    decreases b.len(),
{
    if b.len() == 0 {
        Seq::empty()
    } else {
        seq![hex_digit((b[0] / 16) as nat), hex_digit((b[0] % 16) as nat)] + hex_lower(b.skip(1))
    }
}

/// `hex::encode`: each byte as two lower-case hexadecimal digits, high nibble first.
#[verifier::external_body]
fn hex_encode(b: &[u8]) -> (s: String)
    ensures
        s@ == hex_lower(b@),
{
    hex::encode(b)
}

/// The note logged with a relayed frame: the map of a `LoadMap`, the payload
/// of an `AllowInputChange` in hexadecimal, else `relay`.
pub open spec fn relay_note_of(type_id: u16, payload: Seq<u8>) -> Seq<char> {
    if type_id == LOAD_MAP_TYPE_ID {
        match load_map_id_of(payload) {
            Some(m) => "LoadMap \""@ + m + "\""@,
            None => "relay"@,
        }
    } else if type_id == ALLOW_INPUT_CHANGE_TYPE_ID {
        "payload="@ + hex_lower(payload)
    } else {
        "relay"@
    }
}

pub fn relay_note(type_id: u16, payload: &[u8]) -> (s: String)
    ensures
        s@ == relay_note_of(type_id, payload@),
{
    if type_id == LOAD_MAP_TYPE_ID {
        match decode_load_map_id(payload) {
            Some(m) => {
                let mut o: Vec<char> = Vec::new();
                push_str(&mut o, "LoadMap \"");
                push_chars(&mut o, &str_chars(m.as_str()));
                push_str(&mut o, "\"");
                chars_to_string(&o)
            },
            None => chars_to_string(&str_chars("relay")),
        }
    } else if type_id == ALLOW_INPUT_CHANGE_TYPE_ID {
        let mut o: Vec<char> = Vec::new();
        push_str(&mut o, "payload=");
        let h = hex_encode(payload);
        push_chars(&mut o, &str_chars(h.as_str()));
        chars_to_string(&o)
    } else {
        chars_to_string(&str_chars("relay"))
    }
}

/// One complete frame taken off the relay buffer.
#[derive(Debug, Clone)]
pub struct RelayFrame {
    pub type_id: u16,
    pub payload_len: usize,
    pub note: String,
}

pub open spec fn frame_len_pos(b: Seq<u8>) -> bool {
    simple_frame_parse(b) matches Some((_, _, n)) ==> n >= 6 && n <= b.len()
}

pub proof fn lemma_frame_len(b: Seq<u8>)
    ensures
        frame_len_pos(b),
{
}

/// The complete frames at the front of `b`, each as (type, payload length,
/// note), and the bytes left after them.
pub open spec fn relay_frames(b: Seq<u8>) -> (Seq<(u16, nat, Seq<char>)>, Seq<u8>)
    decreases b.len(),
{
    match simple_frame_parse(b) {
        None => (Seq::empty(), b),
        Some((t, p, n)) => {
            proof {
                lemma_frame_len(b);
            }
            let rest = relay_frames(b.skip(n as int));
            (seq![(t, p.len(), relay_note_of(t, p))] + rest.0, rest.1)
        },
    }
}

pub open spec fn frames_view(v: Seq<RelayFrame>) -> Seq<(u16, nat, Seq<char>)> {
    v.map_values(|f: RelayFrame| (f.type_id, f.payload_len as nat, f.note@))
}

/// Takes every complete frame off the front of `buf` (see `relay_frames`).
pub fn drain_relay_frames(buf: &mut Vec<u8>) -> (frames: Vec<RelayFrame>)
    ensures
        frames_view(frames@) == relay_frames(old(buf)@).0,
        final(buf)@ == relay_frames(old(buf)@).1,
{
    let ghost b0 = buf@;
    let mut frames: Vec<RelayFrame> = Vec::new();
    loop
        invariant
            b0 == old(buf)@,
            frames_view(frames@) + relay_frames(buf@).0 == relay_frames(b0).0,
            relay_frames(buf@).1 == relay_frames(b0).1,
        decreases buf@.len(),
    {
        let ghost b = buf@;
        match SimpleFrame::try_read(buf.as_slice()) {
            Ok(Some((f, n))) => {
                proof {
                    lemma_frame_len(b);
                }
                let note = relay_note(f.type_id, f.payload.as_slice());
                let ghost item = (f.type_id, f.payload@.len(), note@);
                let ghost before = frames_view(frames@);
                frames.push(RelayFrame { type_id: f.type_id, payload_len: f.payload.len(), note });
                assert(frames_view(frames@) =~= before.push(item));
                let mut rest: Vec<u8> = Vec::new();
                let mut k: usize = n;
                while k < buf.len()
                    invariant
                        n <= k <= buf@.len(),
                        rest@ == buf@.subrange(n as int, k as int),
                    decreases buf@.len() - k,
                {
                    rest.push(buf[k]);
                    assert(rest@ =~= buf@.subrange(n as int, k + 1));
                    k = k + 1;
                }
                assert(rest@ =~= b.skip(n as int));
                *buf = rest;
                assert(before.push(item) + relay_frames(buf@).0 =~= before + (seq![item] + relay_frames(
                    b.skip(n as int),
                ).0));
            },
            _ => {
                assert(simple_frame_parse(b) is None);
                assert(relay_frames(b) == (Seq::<(u16, nat, Seq<char>)>::empty(), b));
                assert(relay_frames(b).0 =~= Seq::<(u16, nat, Seq<char>)>::empty());
                assert(frames_view(frames@) + Seq::<(u16, nat, Seq<char>)>::empty() =~= frames_view(frames@));
                return frames;
            },
        }
    }
}

/// The persona of the first `ClientHello` among the complete frames at the
/// front of `b` (none when it names persona 0 or is too short).
pub open spec fn hello_persona(b: Seq<u8>) -> Option<u64>
    decreases b.len(),
{
    match simple_frame_parse(b) {
        None => None,
        Some((t, p, n)) => if t == CLIENT_HELLO_TYPE_ID {
            if p.len() >= 8 && le_value(p.subrange(0, 8)) != 0 {
                Some(le_value(p.subrange(0, 8)) as u64)
            } else {
                None
            }
        } else {
            proof {
                lemma_frame_len(b);
            }
            hello_persona(b.skip(n as int))
        },
    }
}

fn bytes_from(b: &[u8], from: usize) -> (r: Vec<u8>)
    requires
        from <= b@.len(),
    ensures
        r@ == b@.skip(from as int),
{
    let mut r: Vec<u8> = Vec::new();
    let mut k: usize = from;
    while k < b.len()
        invariant
            from <= k <= b@.len(),
            r@ == b@.subrange(from as int, k as int),
        decreases b@.len() - k,
    {
        r.push(b[k]);
        assert(r@ =~= b@.subrange(from as int, k + 1));
        k = k + 1;
    }
    assert(r@ =~= b@.skip(from as int));
    r
}

/// The persona that a buffered `ClientHello` names (see `hello_persona`).
pub fn persona_from_hello_buf(buf: &[u8]) -> (r: Option<u64>)
    ensures
        r == hello_persona(buf@),
{
    let mut start: usize = 0;
    let total = buf.len();
    assert(buf@.skip(0) =~= buf@);
    loop
        invariant
            total == buf@.len(),
            start <= buf@.len(),
            hello_persona(buf@) == hello_persona(buf@.skip(start as int)),
        decreases buf@.len() - start,
    {
        let rest = bytes_from(buf, start);
        match SimpleFrame::try_read(rest.as_slice()) {
            Ok(Some((f, n))) => {
                proof {
                    lemma_frame_len(rest@);
                }
                if f.type_id == CLIENT_HELLO_TYPE_ID {
                    return match decode_client_hello(f.payload.as_slice()) {
                        Some(p) => if p != 0 {
                            Some(p)
                        } else {
                            None
                        },
                        None => None,
                    };
                }
                assert(buf@.skip(start as int).skip(n as int) =~= buf@.skip(start + n));
                assert(start + n <= total);
                start = start + n;
            },
            _ => return None,
        }
    }
}

} // verus!
