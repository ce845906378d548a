//! SimuCloud orchestrator pieces (`PublicSimuCloudChannel` → `CreateGame`): map
//! path split, `CreateGame` payload, `ProtocolTypeIdMapping` lookup, faction codes.
use vstd::prelude::*;
use vstd::string::StringSliceAdditionalSpecFns;
use crate::text::{
    bytes_find, bytes_occur_at, chars_range_to_string, concat_bytes, eq_lit, parse_i32,
    parse_int_in, str_chars, trim, trim_vec, upper, upper_char, upper_vec,
};
use crate::msgsystem::wire::{
    as_signed, as_unsigned, bits_to_i32, law_signed_roundtrip, le_bytes, le_concat, le_value, lemma_bits_roundtrip32,
    lemma_byte_range_values, lemma_le_bytes_len, lemma_le_roundtrip, lemma_pow2_values, pow2_spec,
    ref_array_header, split_le, string_bytes, string_outcome, u32_values, var_i32_outcome,
    Envelope, SimpleFrame, WireReader, WireWriter,
};
use crate::msgsystem::negotiation::{encode_protocol_version, protocol_version_payload, PROTOCOL_VERSION_TYPE_ID};

verus! {

broadcast use vstd::string::group_string_axioms;

/// Dedicated SimuCloud host listen port.
pub const SIMUCLOUD_PORT: u16 = 18388;

pub const CREATE_GAME_OPTIONS_NONE: u32 = 0;
pub const CREATE_GAME_OPTIONS_ALLOW_RECONNECT: u32 = 1;
/// Tech tree (never on `PlayerInfo`: the native deserializer has `EnableSkillTree` only).
pub const CREATE_GAME_OPTIONS_ENABLE_TECH_TREE: u32 = 0x20;
/// Generals rank / kill XP.
pub const CREATE_GAME_OPTIONS_ENABLE_SPECIAL_ABILITIES: u32 = 0x40;
/// Oil as a second currency.
pub const CREATE_GAME_OPTIONS_ENABLE_OIL_ECONOMY: u32 = 0x80;
/// Resource centers do not deplete.
pub const CREATE_GAME_OPTIONS_INFINITE_RESOURCE_CENTERS: u32 = 0x100;

/// IEEE-754 single-precision bit patterns used for allegiance levels.
pub const F32_PLUS_ONE_BITS: u32 = 0x3F80_0000;
pub const F32_MINUS_ONE_BITS: u32 = 0xBF80_0000;

// ---------------------------------------------------------------------------
// Create-game options
// ---------------------------------------------------------------------------
/// Reconnect is always allowed; each enabled lobby option adds its own bit.
pub open spec fn create_game_options_spec(
    enable_tech_tree: bool,
    enable_special_abilities: bool,
    enable_oil_economy: bool,
    infinite_resource_centers: bool,
) -> u32 {
    (1 + (if enable_tech_tree {
        0x20int
    } else {
        0
    }) + (if enable_special_abilities {
        0x40int
    } else {
        0
    }) + (if enable_oil_economy {
        0x80int
    } else {
        0
    }) + (if infinite_resource_centers {
        0x100int
    } else {
        0
    })) as u32
}

pub fn create_game_options(
    enable_tech_tree: bool,
    enable_special_abilities: bool,
    enable_oil_economy: bool,
    infinite_resource_centers: bool,
) -> (options: u32)
    ensures
        options == create_game_options_spec(
            enable_tech_tree,
            enable_special_abilities,
            enable_oil_economy,
            infinite_resource_centers,
        ),
{
    let mut options = CREATE_GAME_OPTIONS_ALLOW_RECONNECT;
    if enable_tech_tree {
        options = options + CREATE_GAME_OPTIONS_ENABLE_TECH_TREE;
    }
    if enable_special_abilities {
        options = options + CREATE_GAME_OPTIONS_ENABLE_SPECIAL_ABILITIES;
    }
    if enable_oil_economy {
        options = options + CREATE_GAME_OPTIONS_ENABLE_OIL_ECONOMY;
    }
    if infinite_resource_centers {
        options = options + CREATE_GAME_OPTIONS_INFINITE_RESOURCE_CENTERS;
    }
    options
}

/// Each lobby flag shows up as exactly its own bit of the options word, next to
/// the reconnect bit, and no other bit is set.
pub proof fn law_create_game_options_bits(a: bool, b: bool, c: bool, d: bool)
    ensures
        create_game_options_spec(a, b, c, d) & 1 == 1,
        (create_game_options_spec(a, b, c, d) & 0x20 != 0) == a,
        (create_game_options_spec(a, b, c, d) & 0x40 != 0) == b,
        (create_game_options_spec(a, b, c, d) & 0x80 != 0) == c,
        (create_game_options_spec(a, b, c, d) & 0x100 != 0) == d,
        create_game_options_spec(a, b, c, d) & !0x1E1u32 == 0,
{
    let o = create_game_options_spec(a, b, c, d);
    let x: u32 = if a {
        1
    } else {
        0
    };
    let y: u32 = if b {
        1
    } else {
        0
    };
    let z: u32 = if c {
        1
    } else {
        0
    };
    let w: u32 = if d {
        1
    } else {
        0
    };
    assert(o == 1 + 0x20 * x + 0x40 * y + 0x80 * z + 0x100 * w);
    assert((x <= 1 && y <= 1 && z <= 1 && w <= 1) ==> {
        let v: u32 = (1 + 0x20 * x + 0x40 * y + 0x80 * z + 0x100 * w) as u32;
        &&& v & 1 == 1
        &&& (v & 0x20 != 0) == (x == 1)
        &&& (v & 0x40 != 0) == (y == 1)
        &&& (v & 0x80 != 0) == (z == 1)
        &&& (v & 0x100 != 0) == (w == 1)
        &&& v & !0x1E1u32 == 0
    }) by (bit_vector);
}

// ---------------------------------------------------------------------------
// Map path
// ---------------------------------------------------------------------------
/// Backslashes read as forward slashes.
pub open spec fn slash_norm(s: Seq<char>) -> Seq<char> {
    s.map_values(|c: char| if c == '\\' { '/' } else { c })
}

/// Index of the last `/` in `s`.
pub open spec fn last_slash(s: Seq<char>) -> Option<int>
    decreases s.len(),
{
    if s.len() == 0 {
        None
    } else if s.last() == '/' {
        Some(s.len() - 1)
    } else {
        last_slash(s.drop_last())
    }
}

/// `(MapName, DirPath)`: the leaf after the last slash, and everything up to and
/// including that slash (empty when the slash is the first character). Without a
/// slash the whole path is the name.
pub open spec fn split_map_path_spec(full: Seq<char>) -> (Seq<char>, Seq<char>) {
    let n = slash_norm(full);
    match last_slash(n) {
        Some(i) => (
            n.subrange(i + 1, n.len() as int),
            if i == 0 {
                Seq::<char>::empty()
            } else {
                n.subrange(0, i + 1)
            },
        ),
        None => (n, Seq::<char>::empty()),
    }
}

proof fn lemma_last_slash(s: Seq<char>, i: int)
    requires
        0 <= i <= s.len(),
        forall|k: int| i <= k < s.len() ==> s[k] != '/',
    ensures
        last_slash(s) == last_slash(s.subrange(0, i)),
    decreases s.len() - i,
{
    if i < s.len() {
        assert(s.drop_last().subrange(0, i) =~= s.subrange(0, i));
        lemma_last_slash(s.drop_last(), i);
    } else {
        assert(s.subrange(0, i) =~= s);
    }
}

proof fn lemma_last_slash_props(s: Seq<char>)
    ensures
        last_slash(s) matches Some(i) ==> 0 <= i < s.len() && s[i] == '/' && forall|k: int|
            i < k < s.len() ==> s[k] != '/',
        last_slash(s) is None ==> forall|k: int| 0 <= k < s.len() ==> s[k] != '/',
    decreases s.len(),
{
    if s.len() > 0 && s.last() != '/' {
        lemma_last_slash_props(s.drop_last());
        assert forall|k: int| 0 <= k < s.len() - 1 implies s.drop_last()[k] == s[k] by {}
    }
}

/// Split a map path into `(MapName, DirPath)` for `SimuCloud.CreateGame`.
pub fn split_map_path(full: &str) -> (r: (String, String))
    ensures
        (r.0@, r.1@) == split_map_path_spec(full@),
{
    let raw = str_chars(full);
    let mut n: Vec<char> = Vec::new();
    let mut i: usize = 0;
    while i < raw.len()
        invariant
            i <= raw@.len(),
            n@ == slash_norm(raw@.subrange(0, i as int)),
        decreases raw@.len() - i,
    {
        let c = raw[i];
        n.push(if c == '\\' { '/' } else { c });
        assert(slash_norm(raw@.subrange(0, i + 1)) =~= slash_norm(raw@.subrange(0, i as int)).push(
            if c == '\\' { '/' } else { c },
        ));
        i = i + 1;
    }
    assert(raw@.subrange(0, raw@.len() as int) =~= raw@);
    let mut j: usize = n.len();
    while j > 0 && n[j - 1] != '/'
        invariant
            j <= n@.len(),
            forall|k: int| j <= k < n@.len() ==> n@[k] != '/',
        decreases j,
    {
        j = j - 1;
    }
    proof {
        lemma_last_slash(n@, j as int);
        if j > 0 {
            assert(n@.subrange(0, j as int).last() == '/');
        }
    }
    if j == 0 {
        let whole = chars_range_to_string(&n, 0, n.len());
        assert(n@.subrange(0, n@.len() as int) =~= n@);
        (whole, String::new())
    } else {
        let slash = j - 1;
        let leaf = chars_range_to_string(&n, j, n.len());
        let dir = if slash == 0 {
            String::new()
        } else {
            chars_range_to_string(&n, 0, j)
        };
        (leaf, dir)
    }
}

/// The name never contains a slash, and when the last slash is not the first
/// character the directory followed by the name gives back the normalized path.
pub proof fn law_split_map_path(full: Seq<char>)
    ensures
        forall|k: int|
            0 <= k < split_map_path_spec(full).0.len() ==> split_map_path_spec(full).0[k] != '/',
        last_slash(slash_norm(full)) matches Some(i) && i > 0 ==> split_map_path_spec(full).1
            + split_map_path_spec(full).0 == slash_norm(full),
        last_slash(slash_norm(full)) is None ==> split_map_path_spec(full).0 == slash_norm(full),
{
    let n = slash_norm(full);
    lemma_last_slash_props(n);
    match last_slash(n) {
        Some(i) => {
            if i > 0 {
                assert(n.subrange(0, i + 1) + n.subrange(i + 1, n.len() as int) =~= n);
            }
        },
        None => {},
    }
}

// ---------------------------------------------------------------------------
// CreateGame payload
// ---------------------------------------------------------------------------
/// One roster entry (`GameSetup.PlayerInfo`). Allegiance levels are carried as
/// their IEEE-754 single-precision bit patterns, which is what goes on the wire.
#[derive(Clone, Debug)]
pub struct PlayerInfo {
    pub player_id: u64,
    pub reconnect: bool,
    pub faction: i32,
    pub general_id: u32,
    pub team: i32,
    pub start_point: i32,
    pub difficulty: i32,
    pub is_ai: bool,
    pub allegiance_levels: Vec<u32>,
    pub skill_tree_unlocks: Vec<u32>,
    pub consumable_player_power: u32,
    /// Native skill-tree enable.
    pub enable_skill_tree: bool,
}

pub open spec fn bool_byte(b: bool) -> u8 {
    if b {
        1
    } else {
        0
    }
}

pub open spec fn i32_bytes(v: i32) -> Seq<u8> {
    le_bytes(as_unsigned(v as int, 32), 4)
}

/// Encoded `PlayerInfo` fields in wire order.
pub open spec fn player_info_bytes(p: PlayerInfo) -> Seq<u8> {
    le_bytes(p.player_id as nat, 8) + seq![bool_byte(p.reconnect)] + i32_bytes(p.faction) + le_bytes(
        p.general_id as nat,
        4,
    ) + i32_bytes(p.team) + i32_bytes(p.start_point) + i32_bytes(p.difficulty) + seq![
        bool_byte(p.is_ai),
    ] + ref_array_header(p.allegiance_levels@.len()) + le_concat(
        u32_values(p.allegiance_levels@),
        4,
    ) + ref_array_header(p.skill_tree_unlocks@.len()) + le_concat(
        u32_values(p.skill_tree_unlocks@),
        4,
    ) + le_bytes(p.consumable_player_power as nat, 4) + seq![bool_byte(p.enable_skill_tree)]
}

/// Encoded roster entries, in order.
pub open spec fn player_infos_bytes(infos: Seq<PlayerInfo>) -> Seq<u8>
    decreases infos.len(),
{
    if infos.len() == 0 {
        Seq::empty()
    } else {
        player_infos_bytes(infos.drop_last()) + player_info_bytes(infos.last())
    }
}

/// `SimuCloud.CreateGame` payload: map name, directory, roster array, game id
/// GUID bytes, and the options word as an Int32 Rts enum.
pub open spec fn create_game_payload_spec(
    game_id: Seq<u8>,
    map_name: Seq<char>,
    dir_path: Seq<char>,
    info: Seq<PlayerInfo>,
    options: u32,
) -> Seq<u8> {
    string_bytes(Some(map_name)) + string_bytes(Some(dir_path)) + ref_array_header(info.len())
        + player_infos_bytes(info) + game_id + seq![9u8] + le_bytes(options as nat, 4)
}

#[verifier::rlimit(40)]
fn write_player_info(w: &mut WireWriter, p: &PlayerInfo)
    ensures
        final(w)@ == old(w)@ + player_info_bytes(*p),
{
    w.write_u64(p.player_id);
    w.write_bool(p.reconnect);
    w.write_i32(p.faction);
    w.write_u32(p.general_id);
    w.write_i32(p.team);
    w.write_i32(p.start_point);
    w.write_i32(p.difficulty);
    w.write_bool(p.is_ai);
    w.write_ref_array_u32(p.allegiance_levels.as_slice());
    w.write_ref_array_u32(p.skill_tree_unlocks.as_slice());
    w.write_u32(p.consumable_player_power);
    w.write_bool(p.enable_skill_tree);
    assert(final(w)@ =~= old(w)@ + player_info_bytes(*p));
}

fn write_player_info_array(w: &mut WireWriter, info: &[PlayerInfo])
    ensures
        final(w)@ == old(w)@ + ref_array_header(info@.len()) + player_infos_bytes(info@),
{
    w.write_ref_array_len(info.len());
    let ghost start = w@;
    let mut i: usize = 0;
    while i < info.len()
        invariant
            i <= info@.len(),
            w@ == start + player_infos_bytes(info@.subrange(0, i as int)),
        decreases info@.len() - i,
    {
        write_player_info(w, &info[i]);
        proof {
            let pre = info@.subrange(0, i as int);
            let next = info@.subrange(0, i + 1);
            assert(next.drop_last() =~= pre);
            assert(next.last() == info@[i as int]);
        }
        i = i + 1;
    }
    assert(info@.subrange(0, info@.len() as int) =~= info@);
}

/// First frame on the SimuCloud channel: the client-channel `ProtocolVersion`.
pub fn protocol_version_frame() -> (f: SimpleFrame)
    ensures
        f.type_id == PROTOCOL_VERSION_TYPE_ID,
        f.payload@ == protocol_version_payload(),
{
    encode_protocol_version()
}

/// Serialize `SimuCloud.CreateGame` payload (type id comes from the negotiated mapping).
pub fn encode_create_game_payload(
    game_id: &[u8; 16],
    map_name: &str,
    dir_path: &str,
    info: &[PlayerInfo],
    options: u32,
) -> (out: Vec<u8>)
    ensures
        out@ == create_game_payload_spec(game_id@, map_name@, dir_path@, info@, options),
{
    let mut w = WireWriter::new();
    w.write_string(Some(map_name));
    w.write_string(Some(dir_path));
    write_player_info_array(&mut w, info);
    w.write_bytes(game_id.as_slice());
    let v = bits_to_i32(options);
    w.write_rts_enum_i32(v);
    proof {
        lemma_bits_roundtrip32(options);
    }
    assert(w@ =~= create_game_payload_spec(game_id@, map_name@, dir_path@, info@, options));
    w.into_bytes()
}

pub fn encode_create_game_envelope(
    type_id: u16,
    game_id: &[u8; 16],
    map_name: &str,
    dir_path: &str,
    info: &[PlayerInfo],
    options: u32,
) -> (e: Envelope)
    ensures
        e.sender@ == Seq::<u8>::empty(),
        e.receiver@ == Seq::<u8>::empty(),
        e.type_id == type_id,
        e.payload@ == create_game_payload_spec(game_id@, map_name@, dir_path@, info@, options),
{
    Envelope {
        sender: Vec::new(),
        receiver: Vec::new(),
        type_id,
        payload: encode_create_game_payload(game_id, map_name, dir_path, info, options),
    }
}

/// Allegiance row for a roster entry: 17 levels, 0.0 at index 0, then +1.0 on the
/// entry's own team and -1.0 elsewhere (as f32 bit patterns).
pub open spec fn allegiance_row(team: i32) -> Seq<u32> {
    Seq::new(
        17,
        |i: int|
            if i == 0 {
                0u32
            } else if i == team {
                F32_PLUS_ONE_BITS
            } else {
                F32_MINUS_ONE_BITS
            },
    )
}

pub fn allegiance_for_team(team: i32) -> (levels: Vec<u32>)
    ensures
        levels@ == allegiance_row(team),
{
    let mut levels: Vec<u32> = Vec::new();
    levels.push(0);
    let mut i: i32 = 1;
    while i < 17
        invariant
            1 <= i <= 17,
            levels@ == allegiance_row(team).subrange(0, i as int),
        decreases 17 - i,
    {
        levels.push(if i == team { F32_PLUS_ONE_BITS } else { F32_MINUS_ONE_BITS });
        assert(allegiance_row(team).subrange(0, i + 1) =~= allegiance_row(team).subrange(
            0,
            i as int,
        ).push(if i == team { F32_PLUS_ONE_BITS } else { F32_MINUS_ONE_BITS }));
        i = i + 1;
    }
    assert(allegiance_row(team).subrange(0, 17) =~= allegiance_row(team));
    levels
}

// ---------------------------------------------------------------------------
// ProtocolTypeIdMapping lookup
// ---------------------------------------------------------------------------
pub open spec fn boundary_ok(p: Seq<u8>, end: int) -> bool {
    end >= p.len() || p[end] == 44u8 || p[end] == 43u8
}

/// A retail mapping entry for `needle` at `pos`: the name ends at a `,`, `+` or the
/// end of the payload, and is preceded by `01 {id} 00 01 {ref} 01`.
pub open spec fn retail_entry_at(p: Seq<u8>, needle: Seq<u8>, pos: int) -> bool {
    &&& bytes_occur_at(p, needle, pos)
    &&& boundary_ok(p, pos + needle.len())
    &&& pos >= 6
    &&& p[pos - 6] == 1u8
    &&& p[pos - 4] == 0u8
    &&& p[pos - 3] == 1u8
    &&& p[pos - 1] == 1u8
}

/// Type id at the first retail entry for `needle` at or after `from`.
pub open spec fn retail_scan(p: Seq<u8>, needle: Seq<u8>, from: nat) -> Option<u16>
    decreases p.len() + 1 - from,
{
    if from > p.len() {
        None
    } else if retail_entry_at(p, needle, from as int) {
        Some(p[from - 5] as u16)
    } else {
        retail_scan(p, needle, from + 1)
    }
}

fn scan_retail_for(p: &[u8], needle: &[u8]) -> (r: Option<u16>)
    ensures
        r == retail_scan(p@, needle@, 0),
{
    let mut pos: usize = 0;
    while pos <= p.len()
        invariant
            pos <= p@.len() + 1,
            retail_scan(p@, needle@, 0) == retail_scan(p@, needle@, pos as nat),
        decreases p@.len() + 1 - pos,
    {
        let hit = bytes_match_at_checked(p, needle, pos);
        if hit {
            return Some(p[pos - 5] as u16);
        }
        if pos == p.len() {
            assert(retail_scan(p@, needle@, (pos + 1) as nat) == None::<u16>);
            return None;
        }
        pos = pos + 1;
    }
    None
}

fn bytes_match_at_checked(p: &[u8], needle: &[u8], pos: usize) -> (r: bool)
    ensures
        r == retail_entry_at(p@, needle@, pos as int),
{
    let plen = p.len();
    let nlen = needle.len();
    if !crate::text::bytes_match_at(p, needle, pos) {
        return false;
    }
    let end = pos + nlen;
    let boundary = end >= p.len() || p[end] == 44 || p[end] == 43;
    boundary && pos >= 6 && p[pos - 6] == 1 && p[pos - 4] == 0 && p[pos - 3] == 1 && p[pos - 1]
        == 1
}

pub open spec fn retail_prefix_long() -> Seq<u8> {
    "Rts.CnC.Messages.SimuCloud.".spec_bytes()
}

pub open spec fn retail_prefix_short() -> Seq<u8> {
    "SimuCloud.".spec_bytes()
}

/// Retail mapping embeds each type as `01 {id} 00 01 {ref} 01` before the full
/// type name; the fully qualified name is searched first.
pub open spec fn retail_ptm_type_id(p: Seq<u8>, suffix: Seq<u8>) -> Option<u16> {
    match retail_scan(p, retail_prefix_long() + suffix, 0) {
        Some(id) => Some(id),
        None => retail_scan(p, retail_prefix_short() + suffix, 0),
    }
}

fn scan_retail_ptm_type_id(ptm_payload: &[u8], suffix: &str) -> (r: Option<u16>)
    ensures
        r == retail_ptm_type_id(ptm_payload@, suffix.spec_bytes()),
{
    let long = concat_bytes("Rts.CnC.Messages.SimuCloud.".as_bytes(), suffix.as_bytes());
    if let Some(id) = scan_retail_for(ptm_payload, &long) {
        return Some(id);
    }
    let short = concat_bytes("SimuCloud.".as_bytes(), suffix.as_bytes());
    scan_retail_for(ptm_payload, &short)
}

/// First index of `needle` in `hay` at or after `i`.
pub open spec fn first_occurrence(hay: Seq<u8>, needle: Seq<u8>, i: nat) -> Option<int>
    decreases hay.len() + 1 - i,
{
    if i > hay.len() {
        None
    } else if bytes_occur_at(hay, needle, i as int) {
        Some(i as int)
    } else {
        first_occurrence(hay, needle, i + 1)
    }
}

proof fn lemma_first_occurrence(hay: Seq<u8>, needle: Seq<u8>, i: nat, r: Option<int>)
    requires
        i <= hay.len() + 1,
        forall|j: int| i <= j < (match r {
            Some(x) => x,
            None => hay.len() as int + 1,
        }) ==> !bytes_occur_at(hay, needle, j),
        r matches Some(x) ==> i <= x && bytes_occur_at(hay, needle, x),
        r is None ==> forall|j: int| hay.len() < j ==> !bytes_occur_at(hay, needle, j),
    ensures
        first_occurrence(hay, needle, i) == r,
    decreases hay.len() + 1 - i,
{
    if i <= hay.len() {
        if !bytes_occur_at(hay, needle, i as int) {
            lemma_first_occurrence(hay, needle, i + 1, r);
        }
    } else {
        if let Some(x) = r {
            assert(x + needle.len() <= hay.len());
        }
    }
}

/// The name holds `SimuCloud.{suffix}` and its first occurrence ends at a `,`, a
/// `+` or the end of the name.
pub open spec fn name_matches_suffix(name: Seq<u8>, suffix: Seq<u8>) -> bool {
    let marker = retail_prefix_short() + suffix;
    match first_occurrence(name, marker, 0) {
        Some(pos) => boundary_ok(name, pos + marker.len()),
        None => false,
    }
}

fn simucloud_name_matches_suffix(name: &str, suffix: &str) -> (r: bool)
    ensures
        r == name_matches_suffix(name.spec_bytes(), suffix.spec_bytes()),
{
    let marker = concat_bytes("SimuCloud.".as_bytes(), suffix.as_bytes());
    let bytes = name.as_bytes();
    let blen = bytes.len();
    let mlen = marker.len();
    let found = bytes_find(bytes, &marker);
    proof {
        lemma_first_occurrence(bytes@, marker@, 0, match found {
            Some(x) => Some(x as int),
            None => None,
        });
    }
    match found {
        None => false,
        Some(pos) => {
            let end = pos + mlen;
            end >= bytes.len() || bytes[end] == 44 || bytes[end] == 43
        },
    }
}

/// Entries of the simple `(id, name)` table: the id of the first named entry whose
/// name matches, looking at no more than `count` entries; `None` if the table
/// ends or is malformed first.
pub open spec fn ptm_table_entries(s: Seq<u8>, count: nat, suffix: Seq<u8>) -> Option<u16>
    decreases count,
{
    if count == 0 {
        None
    } else {
        match split_le(s, 2) {
            None => None,
            Some((id, rest)) => {
                let (r, c) = string_outcome(rest);
                let after = rest.subrange(c as int, rest.len() as int);
                match r {
                    Err(_) => None,
                    Ok(None) => ptm_table_entries(after, (count - 1) as nat, suffix),
                    Ok(Some(name)) => if name_matches_suffix(
                        vstd::utf8::encode_utf8(name),
                        suffix,
                    ) {
                        Some(id as u16)
                    } else {
                        ptm_table_entries(after, (count - 1) as nat, suffix)
                    },
                }
            },
        }
    }
}

/// Simple `(id, name)` table: marker byte 1, zig-zag entry count, entries.
pub open spec fn ptm_table_type_id(p: Seq<u8>, suffix: Seq<u8>) -> Option<u16> {
    if p.len() == 0 || p[0] != 1 {
        None
    } else {
        let rest = p.drop_first();
        let (r, c) = var_i32_outcome(rest);
        match r {
            Err(_) => None,
            Ok(n) => ptm_table_entries(
                rest.subrange(c as int, rest.len() as int),
                ((n as i32) as usize) as nat,
                suffix,
            ),
        }
    }
}

/// Type id for a message name suffix: the retail embedded form first, then the
/// simple `(id, name)` table.
pub open spec fn ptm_type_id(p: Seq<u8>, suffix: Seq<u8>) -> Option<u16> {
    match retail_ptm_type_id(p, suffix) {
        Some(id) => Some(id),
        None => ptm_table_type_id(p, suffix),
    }
}

fn ptm_table_lookup(ptm_payload: &[u8], suffix: &str) -> (r: Option<u16>)
    ensures
        r == ptm_table_type_id(ptm_payload@, suffix.spec_bytes()),
{
    let mut r = WireReader::new(ptm_payload);
    let ghost r0 = r;
    let marker = match r.read_u8() {
        Ok(b) => b,
        Err(_) => {
            return None;
        },
    };
    if marker != 1 {
        return None;
    }
    proof {
        WireReader::lemma_rest_after(&r0, &r, 1);
        assert(r.rest() =~= ptm_payload@.drop_first());
    }
    let ghost r1 = r;
    let count_raw = match r.read_var_i32() {
        Ok(v) => v,
        Err(_) => {
            return None;
        },
    };
    proof {
        WireReader::lemma_rest_after(&r1, &r, var_i32_outcome(r1.rest()).1);
    }
    #[verifier::truncate]
    let count = count_raw as usize;
    let ghost target = ptm_table_type_id(ptm_payload@, suffix.spec_bytes());
    let mut k: usize = 0;
    while k < count
        invariant
            k <= count,
            ptm_table_entries(r.rest(), (count - k) as nat, suffix.spec_bytes()) == target,
            target == ptm_table_type_id(ptm_payload@, suffix.spec_bytes()),
            r.pos() <= r.data().len(),
        decreases count - k,
    {
        let ghost before = r;
        let id = match r.read_u16() {
            Ok(v) => v,
            Err(_) => {
                assert(split_le(before.rest(), 2) is None);
                return None;
            },
        };
        let ghost mid = r;
        proof {
            WireReader::lemma_rest_after(&before, &mid, 2);
            assert(mid.rest() =~= before.rest().subrange(2, before.rest().len() as int));
        }
        match r.read_string() {
            Ok(Some(name)) => {
                proof {
                    WireReader::lemma_rest_after(&mid, &r, string_outcome(mid.rest()).1);
                    assert(split_le(before.rest(), 2) == Some(
                        (id as nat, before.rest().subrange(2, before.rest().len() as int)),
                    ));
                    assert(string_outcome(mid.rest()).0 == Ok::<Option<Seq<char>>, crate::msgsystem::wire::WireError>(Some(name@)));
                }
                if simucloud_name_matches_suffix(name.as_str(), suffix) {
                    return Some(id);
                }
            },
            Ok(None) => {
                proof {
                    WireReader::lemma_rest_after(&mid, &r, string_outcome(mid.rest()).1);
                }
            },
            Err(_) => {
                assert(split_le(before.rest(), 2) == Some(
                    (id as nat, before.rest().subrange(2, before.rest().len() as int)),
                ));
                return None;
            },
        }
        k = k + 1;
    }
    None
}

/// Parse a `ProtocolTypeIdMapping` payload and find the type id for a message name
/// suffix (e.g. `CreateGame`).
pub fn parse_type_id_for_suffix(ptm_payload: &[u8], suffix: &str) -> (r: Option<u16>)
    ensures
        r == ptm_type_id(ptm_payload@, suffix.spec_bytes()),
{
    if let Some(id) = scan_retail_ptm_type_id(ptm_payload, suffix) {
        return Some(id);
    }
    ptm_table_lookup(ptm_payload, suffix)
}

// ---------------------------------------------------------------------------
// Faction codes
// ---------------------------------------------------------------------------
/// Faction code for a lobby value: a number 0..=4 as is, else a name (ASCII case
/// ignored): None=0, USA=1, APA/China/Chi=2, ESC/EU=3, GLA=4.
pub open spec fn faction_code(raw: Seq<char>) -> Option<i32> {
    let s = trim(raw);
    if s.len() == 0 {
        None
    } else {
        match parse_int_in(s, true, i32::MIN as int, i32::MAX as int) {
            Some(n) => if 0 <= n <= 4 {
                Some(n as i32)
            } else {
                None
            },
            None => {
                let u = upper(s);
                if u == "NONE"@ {
                    Some(0)
                } else if u == "USA"@ {
                    Some(1)
                } else if u == "APA"@ || u == "CHINA"@ || u == "CHI"@ {
                    Some(2)
                } else if u == "ESC"@ || u == "EU"@ {
                    Some(3)
                } else if u == "GLA"@ {
                    Some(4)
                } else {
                    None
                }
            },
        }
    }
}

pub fn parse_faction_code(raw: &str) -> (r: Option<i32>)
    ensures
        r == faction_code(raw@),
{
    let chars = str_chars(raw);
    let s = trim_vec(&chars);
    if s.len() == 0 {
        return None;
    }
    match parse_i32(&s) {
        Some(n) => {
            return if 0 <= n && n <= 4 {
                Some(n)
            } else {
                None
            };
        },
        None => {},
    }
    let u = upper_vec(&s);
    if eq_lit(&u, "NONE") {
        Some(0)
    } else if eq_lit(&u, "USA") {
        Some(1)
    } else if eq_lit(&u, "APA") || eq_lit(&u, "CHINA") || eq_lit(&u, "CHI") {
        Some(2)
    } else if eq_lit(&u, "ESC") || eq_lit(&u, "EU") {
        Some(3)
    } else if eq_lit(&u, "GLA") {
        Some(4)
    } else {
        None
    }
}

// ---------------------------------------------------------------------------
// The CreateGame exchange
// ---------------------------------------------------------------------------
/// What a frame received while negotiating type ids decides.
#[derive(Debug, Clone, Copy, PartialEq, Eq, Structural)]
pub enum NegotiationStep {
    /// Not the mapping yet: keep reading.
    Continue,
    /// The mapping names CreateGame: its type id, and those of GameReady and
    /// CreateGameFailure (0 when not named).
    Mapped { create: u16, ready: u16, failure: u16 },
    /// The mapping does not name CreateGame.
    NoCreateGame,
}

/// The step for a frame of type `type_id` with `payload` (see `NegotiationStep`).
pub open spec fn negotiation_step_of(type_id: u16, payload: Seq<u8>) -> NegotiationStep {
    if type_id == crate::msgsystem::messages::PROTOCOL_TYPE_ID_MAPPING_TYPE_ID {
        match ptm_type_id(payload, "CreateGame"@.map_values(|c: char| c as u8)) {
            Some(create) => NegotiationStep::Mapped {
                create,
                ready: match ptm_type_id(payload, "GameReady"@.map_values(|c: char| c as u8)) {
                    Some(x) => x,
                    None => 0,
                },
                failure: match ptm_type_id(payload, "CreateGameFailure"@.map_values(|c: char| c as u8)) {
                    Some(x) => x,
                    None => 0,
                },
            },
            None => NegotiationStep::NoCreateGame,
        }
    } else {
        NegotiationStep::Continue
    }
}

proof fn lemma_ascii_bytes(s: &str)
    requires
        vstd::string::is_ascii(s),
    ensures
        s.spec_bytes() == s@.map_values(|c: char| c as u8),
{
    vstd::string::is_ascii_spec_bytes(s);
    assert(s.spec_bytes() =~= s@.map_values(|c: char| c as u8));
}

/// Reads one negotiation frame (see `negotiation_step_of`).
pub fn negotiation_step(type_id: u16, payload: &[u8]) -> (s: NegotiationStep)
    ensures
        s == negotiation_step_of(type_id, payload@),
{
    if type_id != crate::msgsystem::messages::PROTOCOL_TYPE_ID_MAPPING_TYPE_ID {
        return NegotiationStep::Continue;
    }
    proof {
        reveal_strlit("CreateGame");
        reveal_strlit("GameReady");
        reveal_strlit("CreateGameFailure");
        lemma_ascii_bytes("CreateGame");
        lemma_ascii_bytes("GameReady");
        lemma_ascii_bytes("CreateGameFailure");
    }
    match parse_type_id_for_suffix(payload, "CreateGame") {
        Some(create) => {
            let ready = match parse_type_id_for_suffix(payload, "GameReady") {
                Some(x) => x,
                None => 0,
            };
            let failure = match parse_type_id_for_suffix(payload, "CreateGameFailure") {
                Some(x) => x,
                None => 0,
            };
            NegotiationStep::Mapped { create, ready, failure }
        },
        None => NegotiationStep::NoCreateGame,
    }
}

/// What a dedicated's reply to CreateGame means.
#[derive(Debug, Clone, Copy, PartialEq, Eq, Structural)]
pub enum CreateGameReply {
    Ready,
    Failure,
    /// Something else: keep waiting.
    Other,
}

/// A reply of type `type_id`: GameReady or CreateGameFailure when those ids
/// are known (not 0) and match.
pub fn create_game_reply(type_id: u16, ready: u16, failure: u16) -> (r: CreateGameReply)
    ensures
        r == if ready != 0 && type_id == ready {
            CreateGameReply::Ready
        } else if failure != 0 && type_id == failure {
            CreateGameReply::Failure
        } else {
            CreateGameReply::Other
        },
{
    if ready != 0 && type_id == ready {
        CreateGameReply::Ready
    } else if failure != 0 && type_id == failure {
        CreateGameReply::Failure
    } else {
        CreateGameReply::Other
    }
}

/// A CreateGame type id set by hand (`REFRACTED_SIMUCLOUD_CREATE_TYPE_ID`):
/// the value trimmed, as a `u16`; `None` when it does not read as one.
pub fn create_type_id_override(raw: &str) -> (r: Option<u16>)
    ensures
        r == match crate::text::parse_int_in(trim(raw@), false, 0, u16::MAX as int) {
            Some(n) => Some(n as u16),
            None => None::<u16>,
        },
{
    crate::text::parse_u16(&trim_vec(&str_chars(raw)))
}

/// An `i32` field, decoded from its four wire bytes.
pub open spec fn i32_at(b: Seq<u8>, off: int) -> int {
    as_signed(le_value(b.subrange(off, off + 4)), 32)
}

proof fn lemma_i32_field(v: i32)
    ensures
        i32_bytes(v).len() == 4,
        as_signed(le_value(i32_bytes(v)), 32) == v,
{
    lemma_pow2_values();
    lemma_byte_range_values();
    law_signed_roundtrip(v as int, 32);
    lemma_le_bytes_len(as_unsigned(v as int, 32), 4);
    lemma_le_roundtrip(as_unsigned(v as int, 32), 4);
}

/// An encoded `PlayerInfo` is, in wire order: the player id (8 bytes at 0),
/// reconnect (a byte at 8), faction (at 9), general id (at 13), team (at 17),
/// start point (at 21), difficulty (at 25), is-AI (a byte at 29), the two
/// reference arrays, and it ends with the consumable power (4 bytes) and the
/// skill-tree flag (a byte); every value little-endian, each field decoding
/// to the one given.
pub proof fn law_player_info_layout(p: PlayerInfo)
    ensures
        ({
            let b = player_info_bytes(p);
            let n = b.len() as int;
            &&& n >= 35
            &&& le_value(b.subrange(0, 8)) == p.player_id
            &&& b[8] == (if p.reconnect { 1u8 } else { 0u8 })
            &&& i32_at(b, 9) == p.faction
            &&& le_value(b.subrange(13, 17)) == p.general_id
            &&& i32_at(b, 17) == p.team
            &&& i32_at(b, 21) == p.start_point
            &&& i32_at(b, 25) == p.difficulty
            &&& b[29] == (if p.is_ai { 1u8 } else { 0u8 })
            &&& le_value(b.subrange(n - 5, n - 1)) == p.consumable_player_power
            &&& b[n - 1] == (if p.enable_skill_tree { 1u8 } else { 0u8 })
        }),
{
    let b = player_info_bytes(p);
    lemma_byte_range_values();
    lemma_le_bytes_len(p.player_id as nat, 8);
    lemma_le_roundtrip(p.player_id as nat, 8);
    lemma_le_bytes_len(p.general_id as nat, 4);
    lemma_le_roundtrip(p.general_id as nat, 4);
    lemma_le_bytes_len(p.consumable_player_power as nat, 4);
    lemma_le_roundtrip(p.consumable_player_power as nat, 4);
    lemma_i32_field(p.faction);
    lemma_i32_field(p.team);
    lemma_i32_field(p.start_point);
    lemma_i32_field(p.difficulty);
    let head = le_bytes(p.player_id as nat, 8) + seq![bool_byte(p.reconnect)] + i32_bytes(p.faction) + le_bytes(
        p.general_id as nat,
        4,
    ) + i32_bytes(p.team) + i32_bytes(p.start_point) + i32_bytes(p.difficulty) + seq![bool_byte(p.is_ai)];
    let mid = ref_array_header(p.allegiance_levels@.len()) + le_concat(u32_values(p.allegiance_levels@), 4)
        + ref_array_header(p.skill_tree_unlocks@.len()) + le_concat(u32_values(p.skill_tree_unlocks@), 4);
    let tail = le_bytes(p.consumable_player_power as nat, 4) + seq![bool_byte(p.enable_skill_tree)];
    assert(b =~= head + mid + tail);
    assert(head.len() == 30);
    assert(tail.len() == 5);
    let n = b.len() as int;
    assert(b.subrange(0, 8) =~= le_bytes(p.player_id as nat, 8));
    assert(b.subrange(9, 13) =~= i32_bytes(p.faction));
    assert(b.subrange(13, 17) =~= le_bytes(p.general_id as nat, 4));
    assert(b.subrange(17, 21) =~= i32_bytes(p.team));
    assert(b.subrange(21, 25) =~= i32_bytes(p.start_point));
    assert(b.subrange(25, 29) =~= i32_bytes(p.difficulty));
    assert(b.subrange(n - 5, n - 1) =~= le_bytes(p.consumable_player_power as nat, 4));
    assert(b[n - 1] == tail[4]);
}

proof fn lemma_infos_first(infos: Seq<PlayerInfo>)
    requires
        infos.len() >= 1,
    ensures
        player_infos_bytes(infos).len() >= player_info_bytes(infos[0]).len(),
        player_infos_bytes(infos).subrange(0, player_info_bytes(infos[0]).len() as int) == player_info_bytes(infos[0]),
    decreases infos.len(),
{
    if infos.len() == 1 {
        assert(infos.drop_last().len() == 0);
        assert(player_infos_bytes(infos.drop_last()) == Seq::<u8>::empty());
        assert(infos.last() == infos[0]);
        assert(player_infos_bytes(infos) == player_infos_bytes(infos.drop_last()) + player_info_bytes(infos.last()));
        assert(player_infos_bytes(infos) =~= player_info_bytes(infos[0]));
        assert(player_infos_bytes(infos).subrange(0, player_info_bytes(infos[0]).len() as int) =~= player_info_bytes(infos[0]));
    } else {
        lemma_infos_first(infos.drop_last());
        assert(infos.drop_last()[0] == infos[0]);
        let a = player_infos_bytes(infos.drop_last());
        assert(player_infos_bytes(infos) == a + player_info_bytes(infos.last()));
        assert((a + player_info_bytes(infos.last())).subrange(0, player_info_bytes(infos[0]).len() as int)
            =~= a.subrange(0, player_info_bytes(infos[0]).len() as int));
    }
}

/// In a CreateGame payload the roster's first `PlayerInfo` follows the map
/// name, the directory and the roster header, so its team and start point sit
/// at bytes 17 and 21 from there.
pub proof fn law_create_game_first_player(
    game_id: Seq<u8>,
    map_name: Seq<char>,
    dir_path: Seq<char>,
    info: Seq<PlayerInfo>,
    options: u32,
)
    requires
        info.len() >= 1,
    ensures
        ({
            let b = create_game_payload_spec(game_id, map_name, dir_path, info, options);
            let off = (string_bytes(Some(map_name)).len() + string_bytes(Some(dir_path)).len()
                + ref_array_header(info.len()).len()) as int;
            &&& b.subrange(off, off + player_info_bytes(info[0]).len()) == player_info_bytes(info[0])
            &&& i32_at(b, off + 17) == info[0].team
            &&& i32_at(b, off + 21) == info[0].start_point
        }),
{
    let b = create_game_payload_spec(game_id, map_name, dir_path, info, options);
    let pre = string_bytes(Some(map_name)) + string_bytes(Some(dir_path)) + ref_array_header(info.len());
    let off = pre.len() as int;
    lemma_infos_first(info);
    law_player_info_layout(info[0]);
    let pb = player_info_bytes(info[0]);
    let all = player_infos_bytes(info);
    let rest = game_id + seq![9u8] + le_bytes(options as nat, 4);
    assert(b =~= pre + all + rest);
    assert(b.subrange(off, off + pb.len()) =~= all.subrange(0, pb.len() as int));
    assert(b.subrange(off + 17, off + 21) =~= pb.subrange(17, 21));
    assert(b.subrange(off + 21, off + 25) =~= pb.subrange(21, 25));
}

/// A CreateGame payload ends with the 16-byte game id, the byte 9, and the
/// options word (little-endian).
pub proof fn law_create_game_tail(
    game_id: Seq<u8>,
    map_name: Seq<char>,
    dir_path: Seq<char>,
    info: Seq<PlayerInfo>,
    options: u32,
)
    requires
        game_id.len() == 16,
    ensures
        ({
            let b = create_game_payload_spec(game_id, map_name, dir_path, info, options);
            let n = b.len() as int;
            &&& n >= 21
            &&& le_value(b.subrange(n - 4, n)) == options
            &&& b[n - 5] == 9u8
            &&& b.subrange(n - 21, n - 5) == game_id
        }),
{
    let b = create_game_payload_spec(game_id, map_name, dir_path, info, options);
    lemma_byte_range_values();
    lemma_le_bytes_len(options as nat, 4);
    lemma_le_roundtrip(options as nat, 4);
    let pre = string_bytes(Some(map_name)) + string_bytes(Some(dir_path)) + ref_array_header(info.len())
        + player_infos_bytes(info);
    let tail = game_id + seq![9u8] + le_bytes(options as nat, 4);
    assert(b =~= pre + tail);
    let n = b.len() as int;
    assert(b.subrange(n - 4, n) =~= le_bytes(options as nat, 4));
    assert(b.subrange(n - 21, n - 5) =~= game_id);
    assert(b[n - 5] == tail[16]);
}

/// The allegiance row of a team has 17 levels: 0 at index 0, then +1.0 at the
/// team's own index and -1.0 at every other.
pub proof fn law_allegiance_row(team: i32)
    ensures
        allegiance_row(team).len() == 17,
        allegiance_row(team)[0] == 0,
        forall|i: int|
            1 <= i < 17 ==> (#[trigger] allegiance_row(team)[i] == 0x3F80_0000u32 <==> i == team),
        forall|i: int| 1 <= i < 17 && i != team ==> #[trigger] allegiance_row(team)[i] == 0xBF80_0000u32,
{
}

/// A faction code is one of 0..=4, and the names map to distinct codes: None
/// 0, USA 1, APA (China, Chi) 2, ESC (EU) 3, GLA 4, whatever their case and
/// surrounding blanks.
pub proof fn law_faction_codes(raw: Seq<char>)
    ensures
        faction_code(raw) matches Some(n) ==> 0 <= n <= 4,
        upper(trim(raw)) == "GLA"@ ==> faction_code(raw) == Some(4i32),
        upper(trim(raw)) == "USA"@ ==> faction_code(raw) == Some(1i32),
        upper(trim(raw)) == "APA"@ || upper(trim(raw)) == "CHINA"@ || upper(trim(raw)) == "CHI"@
            ==> faction_code(raw) == Some(2i32),
        upper(trim(raw)) == "ESC"@ || upper(trim(raw)) == "EU"@ ==> faction_code(raw) == Some(3i32),
        upper(trim(raw)) == "NONE"@ ==> faction_code(raw) == Some(0i32),
{
    let s = trim(raw);
    let u = upper(s);
    reveal_strlit("NONE");
    reveal_strlit("USA");
    reveal_strlit("APA");
    reveal_strlit("CHINA");
    reveal_strlit("CHI");
    reveal_strlit("ESC");
    reveal_strlit("EU");
    reveal_strlit("GLA");
    if u.len() > 0 && 'A' <= u[0] <= 'Z' {
        assert(u[0] == upper_char(s[0]));
        lemma_letter_not_int(s);
    }
}

proof fn lemma_letter_not_int(s: Seq<char>)
    requires
        s.len() > 0,
        'A' <= upper_char(s[0]) <= 'Z',
    ensures
        parse_int_in(s, true, i32::MIN as int, i32::MAX as int) is None,
{
    assert(s[0] != '-' && s[0] != '+');
    assert(!crate::text::is_digit(s[0]));
    assert(!crate::text::all_digits(s));
}

} // verus!
