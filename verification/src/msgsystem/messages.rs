//! MessageSystem bootstrap control messages (Client channel join path).
//!
//! Wire shapes of the `PlayerMessages` join sequence: ClientHello → ServerHello /
//! ServerReadyToStart / LoadMap → ClientFinishedLoad → StartGame → AllowInputChange(true).
use vstd::prelude::*;
use crate::msgsystem::wire::{
    law_string_roundtrip, le_bytes, le_value, lemma_byte_range_values, lemma_le_bytes_len, lemma_le_concat_single,
    lemma_le_roundtrip, leb_encode, zigzag,
    ref_array_header, simple_frame_bytes, string_bytes, string_outcome, u32_values, u64_values,
    SimpleFrame, WireReader, WireWriter,
};

verus! {

pub const PROTOCOL_TYPE_ID_MAPPING_TYPE_ID: u16 = 0;
pub const PROTOCOL_VERSION_TYPE_ID: u16 = 1;
pub const ALLOW_INPUT_CHANGE_TYPE_ID: u16 = 12;
pub const GENERAL_TAUNT_TYPE_ID: u16 = 92;
pub const CLIENT_FINISHED_LOAD_TYPE_ID: u16 = 27;
pub const CLIENT_HELLO_TYPE_ID: u16 = 28;
pub const LOAD_MAP_TYPE_ID: u16 = 100;
pub const PING_QUERY_TYPE_ID: u16 = 106;
pub const PING_REPLY_TYPE_ID: u16 = 107;
pub const REQUEST_RANDOM_GENERAL_TAUNT_TYPE_ID: u16 = 180;
pub const REQUEST_SPECIFIC_GENERAL_TAUNT_TYPE_ID: u16 = 186;
pub const SERVER_HELLO_TYPE_ID: u16 = 200;
pub const SERVER_READY_TO_START_TYPE_ID: u16 = 201;
pub const START_GAME_TYPE_ID: u16 = 215;

pub const DEFAULT_PLAYER_HANDLE: u32 = 1;
pub const DEFAULT_PERSONA_ID: u64 = 1_201_618_778;

/// IEEE-754 single-precision bit pattern of `1.0`.
pub const F32_ONE_BITS: u32 = 0x3F80_0000;

/// Name of each known frame type id.
pub open spec fn frame_type_name(type_id: u16) -> &'static str {
    if type_id == 0 {
        "ProtocolTypeIdMapping"
    } else if type_id == 1 {
        "ProtocolVersion"
    } else if type_id == 12 {
        "AllowInputChange"
    } else if type_id == 27 {
        "ClientFinishedLoad"
    } else if type_id == 28 {
        "ClientHello"
    } else if type_id == 92 {
        "GeneralTaunt"
    } else if type_id == 100 {
        "LoadMap"
    } else if type_id == 106 {
        "PingQuery"
    } else if type_id == 107 {
        "PingReply"
    } else if type_id == 180 {
        "RequestRandomGeneralTaunt"
    } else if type_id == 186 {
        "RequestSpecificGeneralTaunt"
    } else if type_id == 200 {
        "ServerHello"
    } else if type_id == 201 {
        "ServerReadyToStart"
    } else if type_id == 215 {
        "StartGame"
    } else {
        "Unknown"
    }
}

pub fn frame_type_label(type_id: u16) -> (label: &'static str)
    ensures
        label == frame_type_name(type_id),
{
    match type_id {
        0 => "ProtocolTypeIdMapping",
        1 => "ProtocolVersion",
        12 => "AllowInputChange",
        27 => "ClientFinishedLoad",
        28 => "ClientHello",
        92 => "GeneralTaunt",
        100 => "LoadMap",
        106 => "PingQuery",
        107 => "PingReply",
        180 => "RequestRandomGeneralTaunt",
        186 => "RequestSpecificGeneralTaunt",
        200 => "ServerHello",
        201 => "ServerReadyToStart",
        215 => "StartGame",
        _ => "Unknown",
    }
}

/// A present one-element `u32` reference array.
pub open spec fn one_u32_array(v: nat) -> Seq<u8> {
    ref_array_header(1) + le_bytes(v, 4)
}

/// A present one-element `u64` reference array.
pub open spec fn one_u64_array(v: nat) -> Seq<u8> {
    ref_array_header(1) + le_bytes(v, 8)
}

/// Allegiance level sent for the joining player: 1.0 on a team, else 0.0.
pub open spec fn allegiance_bits(team: u32) -> nat {
    if team > 0 {
        F32_ONE_BITS as nat
    } else {
        0
    }
}

/// ServerHello payload: handle, persona, player type 0, allegiance, faction, general, team —
/// each as a one-element reference array.
pub open spec fn server_hello_payload(
    player_handle: u32,
    persona: u64,
    faction: u32,
    team: u32,
    general_id: u32,
) -> Seq<u8> {
    one_u32_array(player_handle as nat) + one_u64_array(persona as nat) + one_u32_array(0)
        + one_u32_array(allegiance_bits(team)) + one_u32_array(faction as nat) + one_u32_array(
        general_id as nat,
    ) + one_u32_array(team as nat)
}

fn write_one_u32(w: &mut WireWriter, v: u32)
    ensures
        final(w)@ == old(w)@ + one_u32_array(v as nat),
{
    let a = [v];
    w.write_ref_array_u32(&a);
    proof {
        assert(u32_values(a@) =~= seq![v as nat]);
        lemma_le_concat_single(v as nat, 4);
        assert(final(w)@ =~= old(w)@ + one_u32_array(v as nat));
    }
}

fn write_one_u64(w: &mut WireWriter, v: u64)
    ensures
        final(w)@ == old(w)@ + one_u64_array(v as nat),
{
    let a = [v];
    w.write_ref_array_u64(&a);
    proof {
        assert(u64_values(a@) =~= seq![v as nat]);
        lemma_le_concat_single(v as nat, 8);
        assert(final(w)@ =~= old(w)@ + one_u64_array(v as nat));
    }
}

pub fn encode_server_hello(
    player_handle: u32,
    persona: u64,
    faction: u32,
    team: u32,
    general_id: u32,
) -> (f: SimpleFrame)
    ensures
        f.type_id == SERVER_HELLO_TYPE_ID,
        f.payload@ == server_hello_payload(player_handle, persona, faction, team, general_id),
{
    let allegiance: u32 = if team > 0 { F32_ONE_BITS } else { 0 };
    let mut w = WireWriter::new();
    write_one_u32(&mut w, player_handle);
    write_one_u64(&mut w, persona);
    write_one_u32(&mut w, 0);  // PlayerType
    write_one_u32(&mut w, allegiance);  // AllegianceLevel (f32 bits)
    write_one_u32(&mut w, faction);
    write_one_u32(&mut w, general_id);  // General
    write_one_u32(&mut w, team);
    assert(w@ =~= server_hello_payload(player_handle, persona, faction, team, general_id));
    SimpleFrame { type_id: SERVER_HELLO_TYPE_ID, payload: w.into_bytes() }
}

pub fn encode_server_hello_frame(
    player_handle: u32,
    persona: u64,
    faction: u32,
    team: u32,
    general_id: u32,
) -> (out: Vec<u8>)
    ensures
        out@ == simple_frame_bytes(
            SERVER_HELLO_TYPE_ID,
            server_hello_payload(player_handle, persona, faction, team, general_id),
        ),
{
    encode_server_hello(player_handle, persona, faction, team, general_id).write()
}

pub fn encode_server_ready_to_start() -> (f: SimpleFrame)
    ensures
        f.type_id == SERVER_READY_TO_START_TYPE_ID,
        f.payload@ == Seq::<u8>::empty(),
{
    SimpleFrame { type_id: SERVER_READY_TO_START_TYPE_ID, payload: Vec::new() }
}

pub fn encode_server_ready_to_start_frame() -> (out: Vec<u8>)
    ensures
        out@ == simple_frame_bytes(SERVER_READY_TO_START_TYPE_ID, Seq::<u8>::empty()),
{
    encode_server_ready_to_start().write()
}

/// LoadMap payload: handle, map id, two empty strings, position (0,0,0) and the
/// identity rotation quaternion (0,0,0,1) as f32 bit patterns.
pub open spec fn load_map_payload(player_handle: u32, map_id: Seq<char>) -> Seq<u8> {
    le_bytes(player_handle as nat, 4) + string_bytes(Some(map_id)) + string_bytes(
        Some(Seq::<char>::empty()),
    ) + string_bytes(Some(Seq::<char>::empty())) + le_bytes(0, 4) + le_bytes(0, 4) + le_bytes(0, 4)
        + le_bytes(0, 4) + le_bytes(0, 4) + le_bytes(0, 4) + le_bytes(F32_ONE_BITS as nat, 4)
}

pub fn encode_load_map(player_handle: u32, map_id: &str) -> (f: SimpleFrame)
    ensures
        f.type_id == LOAD_MAP_TYPE_ID,
        f.payload@ == load_map_payload(player_handle, map_id@),
{
    let mut w = WireWriter::new();
    w.write_u32(player_handle);
    w.write_string(Some(map_id));
    let empty = "";
    proof {
        reveal_strlit("");
    }
    assert(empty@ =~= Seq::<char>::empty());
    w.write_string(Some(empty));
    w.write_string(Some(empty));
    w.write_u32(0);
    w.write_u32(0);
    w.write_u32(0);
    // Quaternion.Identity
    w.write_u32(0);
    w.write_u32(0);
    w.write_u32(0);
    w.write_u32(F32_ONE_BITS);
    assert(w@ =~= load_map_payload(player_handle, map_id@));
    SimpleFrame { type_id: LOAD_MAP_TYPE_ID, payload: w.into_bytes() }
}

pub fn encode_load_map_frame(player_handle: u32, map_id: &str) -> (out: Vec<u8>)
    ensures
        out@ == simple_frame_bytes(LOAD_MAP_TYPE_ID, load_map_payload(player_handle, map_id@)),
{
    encode_load_map(player_handle, map_id).write()
}

/// Map id carried by a LoadMap payload: the string after the handle, when present
/// and non-empty.
pub open spec fn load_map_id_of(payload: Seq<u8>) -> Option<Seq<char>> {
    if payload.len() < 4 {
        None
    } else {
        match string_outcome(payload.subrange(4, payload.len() as int)).0 {
            Ok(Some(s)) => if s.len() > 0 {
                Some(s)
            } else {
                None
            },
            _ => None,
        }
    }
}

pub fn decode_load_map_id(payload: &[u8]) -> (res: Option<String>)
    ensures
        match res {
            Some(s) => load_map_id_of(payload@) == Some(s@),
            None => load_map_id_of(payload@) is None,
        },
{
    let mut r = WireReader::new(payload);
    match r.read_u32() {
        Ok(_) => {},
        Err(_) => {
            return None;
        },
    }
    assert(r.rest() =~= payload@.subrange(4, payload@.len() as int));
    match r.read_string() {
        Ok(Some(s)) => {
            if s.as_str().is_empty() {
                None
            } else {
                Some(s)
            }
        },
        _ => None,
    }
}

/// A LoadMap written for a non-empty map id decodes back to that id.
pub proof fn law_load_map_id_roundtrip(player_handle: u32, map_id: Seq<char>)
    requires
        map_id.len() > 0,
        vstd::utf8::encode_utf8(map_id).len() <= i32::MAX,
    ensures
        load_map_id_of(load_map_payload(player_handle, map_id)) == Some(map_id),
{
    let p = load_map_payload(player_handle, map_id);
    lemma_le_bytes_len(player_handle as nat, 4);
    let tail = string_bytes(Some(Seq::<char>::empty())) + string_bytes(Some(Seq::<char>::empty()))
        + le_bytes(0, 4) + le_bytes(0, 4) + le_bytes(0, 4) + le_bytes(0, 4) + le_bytes(0, 4)
        + le_bytes(0, 4) + le_bytes(F32_ONE_BITS as nat, 4);
    assert(p.subrange(4, p.len() as int) =~= string_bytes(Some(map_id)) + tail);
    law_string_roundtrip(Some(map_id), tail);
}

/// PingReply payload: the client's start time, then the server time.
pub open spec fn ping_reply_payload(client_start_time: u32, server_time: u32) -> Seq<u8> {
    le_bytes(client_start_time as nat, 4) + le_bytes(server_time as nat, 4)
}

pub fn encode_ping_reply(client_start_time: u32, server_time: u32) -> (f: SimpleFrame)
    ensures
        f.type_id == PING_REPLY_TYPE_ID,
        f.payload@ == ping_reply_payload(client_start_time, server_time),
{
    let mut w = WireWriter::new();
    w.write_u32(client_start_time);
    w.write_u32(server_time);
    SimpleFrame { type_id: PING_REPLY_TYPE_ID, payload: w.into_bytes() }
}

pub fn encode_ping_reply_frame(client_start_time: u32, server_time: u32) -> (out: Vec<u8>)
    ensures
        out@ == simple_frame_bytes(PING_REPLY_TYPE_ID, ping_reply_payload(client_start_time, server_time)),
{
    encode_ping_reply(client_start_time, server_time).write()
}

/// PingQuery carries the client's start time as its first u32.
pub fn decode_ping_query(payload: &[u8]) -> (res: Option<u32>)
    ensures
        match res {
            Some(v) => payload@.len() >= 4 && v as nat == le_value(payload@.subrange(0, 4)),
            None => payload@.len() < 4,
        },
{
    let mut r = WireReader::new(payload);
    match r.read_u32() {
        Ok(v) => Some(v),
        Err(_) => None,
    }
}

/// ClientHello carries the persona id as its first u64.
pub fn decode_client_hello(payload: &[u8]) -> (res: Option<u64>)
    ensures
        match res {
            Some(v) => payload@.len() >= 8 && v as nat == le_value(payload@.subrange(0, 8)),
            None => payload@.len() < 8,
        },
{
    let mut r = WireReader::new(payload);
    match r.read_u64() {
        Ok(v) => Some(v),
        Err(_) => None,
    }
}

/// StartGame payload: faction, then one-element arrays of player id, player type 0
/// and allegiance 0.0.
pub open spec fn start_game_payload(player_id: u32, faction: u32) -> Seq<u8> {
    le_bytes(faction as nat, 4) + one_u32_array(player_id as nat) + one_u32_array(0)
        + one_u32_array(0)
}

pub fn encode_start_game(player_id: u32, faction: u32) -> (f: SimpleFrame)
    ensures
        f.type_id == START_GAME_TYPE_ID,
        f.payload@ == start_game_payload(player_id, faction),
{
    let mut w = WireWriter::new();
    w.write_u32(faction);
    write_one_u32(&mut w, player_id);
    write_one_u32(&mut w, 0);
    write_one_u32(&mut w, 0);  // allegiance 0.0 (f32 bits)
    assert(w@ =~= start_game_payload(player_id, faction));
    SimpleFrame { type_id: START_GAME_TYPE_ID, payload: w.into_bytes() }
}

pub fn encode_start_game_frame(player_id: u32, faction: u32) -> (out: Vec<u8>)
    ensures
        out@ == simple_frame_bytes(START_GAME_TYPE_ID, start_game_payload(player_id, faction)),
{
    encode_start_game(player_id, faction).write()
}

/// The ServerHello payload is seven one-element reference arrays, each with
/// the header bytes `1, 2`: the player handle (at 2), the persona (8 bytes at
/// 8), player type 0 (at 18), the allegiance bits (1.0 when on a team, else 0;
/// at 24), the faction (at 30), the general id (at 36) and the team (at 42),
/// every value little-endian.
pub proof fn law_server_hello_layout(player_handle: u32, persona: u64, faction: u32, team: u32, general_id: u32)
    ensures
        ({
            let b = server_hello_payload(player_handle, persona, faction, team, general_id);
            let hdr = seq![1u8, 2u8];
            &&& b.len() == 46
            &&& b.subrange(0, 2) == hdr && b.subrange(6, 8) == hdr && b.subrange(16, 18) == hdr
            &&& b.subrange(22, 24) == hdr && b.subrange(28, 30) == hdr && b.subrange(34, 36) == hdr
            &&& b.subrange(40, 42) == hdr
            &&& le_value(b.subrange(2, 6)) == player_handle
            &&& le_value(b.subrange(8, 16)) == persona
            &&& le_value(b.subrange(18, 22)) == 0
            &&& le_value(b.subrange(24, 28)) == if team > 0 {
                0x3F80_0000nat
            } else {
                0nat
            }
            &&& le_value(b.subrange(30, 34)) == faction
            &&& le_value(b.subrange(36, 40)) == general_id
            &&& le_value(b.subrange(42, 46)) == team
        }),
{
    let b = server_hello_payload(player_handle, persona, faction, team, general_id);
    assert(zigzag(1) == 2);
    assert(leb_encode(2) =~= seq![2u8]);
    let h = ref_array_header(1);
    assert(h =~= seq![1u8, 2u8]);
    lemma_byte_range_values();
    let al: nat = allegiance_bits(team);
    lemma_le_bytes_len(player_handle as nat, 4);
    lemma_le_bytes_len(persona as nat, 8);
    lemma_le_bytes_len(0, 4);
    lemma_le_bytes_len(al, 4);
    lemma_le_bytes_len(faction as nat, 4);
    lemma_le_bytes_len(general_id as nat, 4);
    lemma_le_bytes_len(team as nat, 4);
    lemma_le_roundtrip(player_handle as nat, 4);
    lemma_le_roundtrip(persona as nat, 8);
    lemma_le_roundtrip(0, 4);
    lemma_le_roundtrip(al, 4);
    lemma_le_roundtrip(faction as nat, 4);
    lemma_le_roundtrip(general_id as nat, 4);
    lemma_le_roundtrip(team as nat, 4);
    assert(b =~= h + le_bytes(player_handle as nat, 4) + h + le_bytes(persona as nat, 8) + h + le_bytes(0, 4) + h
        + le_bytes(al, 4) + h + le_bytes(faction as nat, 4) + h + le_bytes(general_id as nat, 4) + h + le_bytes(
        team as nat,
        4,
    ));
    assert(b.subrange(2, 6) =~= le_bytes(player_handle as nat, 4));
    assert(b.subrange(8, 16) =~= le_bytes(persona as nat, 8));
    assert(b.subrange(18, 22) =~= le_bytes(0, 4));
    assert(b.subrange(24, 28) =~= le_bytes(al, 4));
    assert(b.subrange(30, 34) =~= le_bytes(faction as nat, 4));
    assert(b.subrange(36, 40) =~= le_bytes(general_id as nat, 4));
    assert(b.subrange(42, 46) =~= le_bytes(team as nat, 4));
    assert(b.subrange(0, 2) =~= h);
    assert(b.subrange(6, 8) =~= h);
    assert(b.subrange(16, 18) =~= h);
    assert(b.subrange(22, 24) =~= h);
    assert(b.subrange(28, 30) =~= h);
    assert(b.subrange(34, 36) =~= h);
    assert(b.subrange(40, 42) =~= h);
}

/// PingReply is eight bytes: the client's start time echoed back (at 0), then
/// the server time (at 4), both little-endian.
pub proof fn law_ping_reply_layout(client_start_time: u32, server_time: u32)
    ensures
        ({
            let b = ping_reply_payload(client_start_time, server_time);
            &&& b.len() == 8
            &&& le_value(b.subrange(0, 4)) == client_start_time
            &&& le_value(b.subrange(4, 8)) == server_time
        }),
{
    let b = ping_reply_payload(client_start_time, server_time);
    lemma_byte_range_values();
    lemma_le_bytes_len(client_start_time as nat, 4);
    lemma_le_bytes_len(server_time as nat, 4);
    lemma_le_roundtrip(client_start_time as nat, 4);
    lemma_le_roundtrip(server_time as nat, 4);
    assert(b.subrange(0, 4) =~= le_bytes(client_start_time as nat, 4));
    assert(b.subrange(4, 8) =~= le_bytes(server_time as nat, 4));
}

/// StartGame is the faction (at 0) followed by three one-element arrays (the
/// header bytes `1, 2` before each): the player id (at 6), player type 0 (at
/// 12) and allegiance 0.0 (at 18), every value little-endian.
pub proof fn law_start_game_layout(player_id: u32, faction: u32)
    ensures
        ({
            let b = start_game_payload(player_id, faction);
            let hdr = seq![1u8, 2u8];
            &&& b.len() == 22
            &&& le_value(b.subrange(0, 4)) == faction
            &&& b.subrange(4, 6) == hdr && b.subrange(10, 12) == hdr && b.subrange(16, 18) == hdr
            &&& le_value(b.subrange(6, 10)) == player_id
            &&& le_value(b.subrange(12, 16)) == 0
            &&& le_value(b.subrange(18, 22)) == 0
        }),
{
    let b = start_game_payload(player_id, faction);
    assert(zigzag(1) == 2);
    assert(leb_encode(2) =~= seq![2u8]);
    let h = ref_array_header(1);
    assert(h =~= seq![1u8, 2u8]);
    lemma_byte_range_values();
    lemma_le_bytes_len(faction as nat, 4);
    lemma_le_bytes_len(player_id as nat, 4);
    lemma_le_bytes_len(0, 4);
    lemma_le_roundtrip(faction as nat, 4);
    lemma_le_roundtrip(player_id as nat, 4);
    lemma_le_roundtrip(0, 4);
    assert(b =~= le_bytes(faction as nat, 4) + h + le_bytes(player_id as nat, 4) + h + le_bytes(0, 4) + h
        + le_bytes(0, 4));
    assert(b.subrange(0, 4) =~= le_bytes(faction as nat, 4));
    assert(b.subrange(6, 10) =~= le_bytes(player_id as nat, 4));
    assert(b.subrange(12, 16) =~= le_bytes(0, 4));
    assert(b.subrange(18, 22) =~= le_bytes(0, 4));
    assert(b.subrange(4, 6) =~= h);
    assert(b.subrange(10, 12) =~= h);
    assert(b.subrange(16, 18) =~= h);
}

/// LoadMap starts with the player handle (4 bytes) followed by the map id
/// string, and ends with six zero floats and 1.0 (the identity quaternion's w)
/// after two empty strings.
pub proof fn law_load_map_layout(player_handle: u32, map_id: Seq<char>)
    ensures
        ({
            let b = load_map_payload(player_handle, map_id);
            let n = b.len() as int;
            let sm = string_bytes(Some(map_id));
            let m = sm.len() as int;
            &&& n == 4 + m + 4 + 28
            &&& le_value(b.subrange(0, 4)) == player_handle
            &&& b.subrange(4, 4 + m) == sm
            &&& b.subrange(4 + m, 8 + m) == seq![1u8, 0u8, 1u8, 0u8]
            &&& forall|k: int| n - 28 <= k < n - 4 ==> b[k] == 0
            &&& le_value(b.subrange(n - 4, n)) == 0x3F80_0000nat
        }),
{
    let b = load_map_payload(player_handle, map_id);
    let sm = string_bytes(Some(map_id));
    lemma_byte_range_values();
    lemma_le_bytes_len(player_handle as nat, 4);
    lemma_le_roundtrip(player_handle as nat, 4);
    lemma_le_bytes_len(F32_ONE_BITS as nat, 4);
    lemma_le_roundtrip(F32_ONE_BITS as nat, 4);
    assert(zigzag(0) == 0);
    assert(leb_encode(0) =~= seq![0u8]);
    assert(vstd::utf8::encode_utf8(Seq::<char>::empty()) =~= Seq::<u8>::empty());
    let e = string_bytes(Some(Seq::<char>::empty()));
    assert(e =~= seq![1u8, 0u8]);
    let z = le_bytes(0, 4);
    reveal_with_fuel(le_bytes, 5);
    assert(z =~= seq![0u8, 0u8, 0u8, 0u8]);
    let one = le_bytes(F32_ONE_BITS as nat, 4);
    assert(b =~= le_bytes(player_handle as nat, 4) + sm + e + e + z + z + z + z + z + z + one);
    let n = b.len() as int;
    assert(b.subrange(0, 4) =~= le_bytes(player_handle as nat, 4));
    let m = sm.len() as int;
    assert(b.subrange(4, 4 + m) =~= sm);
    assert(b.subrange(4 + m, 8 + m) =~= seq![1u8, 0u8, 1u8, 0u8]);
    assert(b.subrange(n - 4, n) =~= one);
}

} // verus!
