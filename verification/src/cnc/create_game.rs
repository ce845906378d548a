//! The SimuCloud `CreateGame` request of a match: the game id from its UUID, the
//! roster rows from the lobby state, the map split and the option bits.
use vstd::prelude::*;
use crate::cnc::game_state::{attr_entries, attr_get, attr_value, CncPlayer, PlayerView};
use crate::cnc::game_state::lobby_attrs::parsed_i32;
use crate::msgsystem::simucloud::{allegiance_for_team, allegiance_row, faction_code, parse_faction_code, PlayerInfo};
use crate::text::{parse_i32, parse_int_in, parse_u32, str_chars, trim, trim_vec, upper, upper_vec, eq_lit};

verus! {

broadcast use vstd::string::group_string_axioms;

// ---------------------------------------------------------------------------
// Game id
// ---------------------------------------------------------------------------
pub open spec fn is_hex(c: char) -> bool {
    ('0' <= c <= '9') || ('a' <= c <= 'f') || ('A' <= c <= 'F')
}

pub open spec fn hex_value(c: char) -> int {
    if '0' <= c <= '9' {
        c as int - '0' as int
    } else if 'a' <= c <= 'f' {
        c as int - 'a' as int + 10
    } else {
        c as int - 'A' as int + 10
    }
}

/// The hex digits of `s`, in order.
pub open spec fn hex_only(s: Seq<char>) -> Seq<char>
    decreases s.len(),
{
    if s.len() == 0 {
        s
    } else if is_hex(s.last()) {
        hex_only(s.drop_last()).push(s.last())
    } else {
        hex_only(s.drop_last())
    }
}

/// GUID bytes of a UUID text: with exactly 32 hex digits, each pair is a byte
/// (in text order); otherwise all zero.
pub open spec fn guid_bytes(uuid: Seq<char>) -> Seq<u8> {
    let h = hex_only(uuid);
    if h.len() == 32 {
        Seq::new(16, |i: int| (hex_value(h[2 * i]) * 16 + hex_value(h[2 * i + 1])) as u8)
    } else {
        Seq::new(16, |i: int| 0u8)
    }
}

fn is_hex_exec(c: char) -> (b: bool)
    ensures
        b == is_hex(c),
{
    ('0' <= c && c <= '9') || ('a' <= c && c <= 'f') || ('A' <= c && c <= 'F')
}

fn hex_value_exec(c: char) -> (v: u8)
    requires
        is_hex(c),
    ensures
        v as int == hex_value(c),
        v < 16,
{
    if '0' <= c && c <= '9' {
        (c as u32 - 48) as u8
    } else if 'a' <= c && c <= 'f' {
        (c as u32 - 97 + 10) as u8
    } else {
        (c as u32 - 65 + 10) as u8
    }
}

proof fn lemma_hex_only_all_hex(s: Seq<char>)
    ensures
        forall|i: int| 0 <= i < hex_only(s).len() ==> is_hex(#[trigger] hex_only(s)[i]),
    decreases s.len(),
{
    if s.len() > 0 {
        lemma_hex_only_all_hex(s.drop_last());
        let r = hex_only(s.drop_last());
        if is_hex(s.last()) {
            assert forall|i: int| 0 <= i < hex_only(s).len() implies is_hex(#[trigger] hex_only(s)[i]) by {
                if i < r.len() {
                    assert(hex_only(s)[i] == r[i]);
                }
            }
        }
    }
}

/// The 16-byte game id that CreateGame carries for a game UUID.
pub fn uuid_to_guid_bytes(uuid: &str) -> (out: [u8; 16])
    ensures
        out@ == guid_bytes(uuid@),
{
    let v = str_chars(uuid);
    let mut h: Vec<char> = Vec::new();
    let mut i: usize = 0;
    assert(v@.subrange(0, 0) =~= Seq::<char>::empty());
    while i < v.len()
        invariant
            i <= v@.len(),
            v@ == uuid@,
            h@ == hex_only(v@.subrange(0, i as int)),
        decreases v@.len() - i,
    {
        let ghost t = v@.subrange(0, i + 1);
        assert(t.drop_last() =~= v@.subrange(0, i as int));
        if is_hex_exec(v[i]) {
            h.push(v[i]);
        }
        i = i + 1;
    }
    assert(v@.subrange(0, i as int) =~= v@);
    proof {
        lemma_hex_only_all_hex(uuid@);
    }
    let mut out = [0u8; 16];
    if h.len() == 32 {
        let mut k: usize = 0;
        while k < 16
            invariant
                k <= 16,
                h@ == hex_only(uuid@),
                h@.len() == 32,
                forall|j: int| 0 <= j < h@.len() ==> is_hex(#[trigger] h@[j]),
                forall|j: int| 0 <= j < k ==> out@[j] == guid_bytes(uuid@)[j],
            decreases 16 - k,
        {
            let hi = hex_value_exec(h[2 * k]);
            let lo = hex_value_exec(h[2 * k + 1]);
            out[k] = hi * 16 + lo;
            k = k + 1;
        }
        assert(out@ =~= guid_bytes(uuid@));
    } else {
        assert(out@ =~= guid_bytes(uuid@));
    }
    out
}

/// What a SimuCloud `CreateGame` carries for one match.
pub struct CreateGameRequest {
    pub game_id: [u8; 16],
    pub map_name: String,
    pub dir_path: String,
    pub roster: Vec<PlayerInfo>,
    pub options: u32,
}

// ---------------------------------------------------------------------------
// Roster rows
// ---------------------------------------------------------------------------
/// A numeric attribute (surrounding spaces ignored).
pub open spec fn i32_attr(a: Seq<(Seq<char>, Seq<char>)>, key: Seq<char>) -> Option<i32> {
    match attr_value(a, key) {
        Some(v) => parsed_i32(trim(v)),
        None => None,
    }
}

pub open spec fn u32_attr(a: Seq<(Seq<char>, Seq<char>)>, key: Seq<char>) -> Option<u32> {
    match attr_value(a, key) {
        Some(v) => match parse_int_in(trim(v), false, 0, u32::MAX as int) {
            Some(n) => Some(n as u32),
            None => None,
        },
        None => None,
    }
}

/// The faction code of a row: its `_faction` when that parses, else GLA for an
/// AI and APA for a human.
pub open spec fn faction_of(a: Seq<(Seq<char>, Seq<char>)>, is_ai: bool) -> i32 {
    let dflt: i32 = if is_ai {
        4
    } else {
        2
    };
    match attr_value(a, "_faction"@) {
        Some(raw) => match faction_code(raw) {
            Some(id) => id,
            None => dflt,
        },
        None => dflt,
    }
}

/// The general of a row: its `_general` when non-zero, else the classic one of
/// its faction (APA for USA, unknown or missing).
pub open spec fn general_of(a: Seq<(Seq<char>, Seq<char>)>) -> u32 {
    let g = match u32_attr(a, "_general"@) {
        Some(n) => n,
        None => 0,
    };
    if g != 0 {
        g
    } else {
        let f = match attr_value(a, "_faction"@) {
            Some(f) => f,
            None => "APA"@,
        };
        let k = upper(trim(f));
        if k == "ESC"@ || k == "EU"@ {
            232716472
        } else if k == "GLA"@ {
            580378690
        } else {
            2914080600
        }
    }
}

/// `info` is the CreateGame row of `p`, whose effective start point is `eff`.
pub open spec fn roster_entry_ok(info: PlayerInfo, p: PlayerView, eff: i32) -> bool {
    let a = p.attribs;
    let team0 = match i32_attr(a, "_team"@) {
        Some(t) => t,
        None => p.team,
    };
    let team: i32 = if team0 > 1 {
        team0
    } else {
        1
    };
    let sp0: i32 = if eff > 0 {
        eff
    } else {
        0
    };
    let start_point: i32 = if sp0 > 0 {
        sp0
    } else {
        match i32_attr(a, "_startpoint"@) {
            Some(s) => if s > 0 {
                s
            } else {
                (p.slot + 1) as i32
            },
            None => (p.slot + 1) as i32,
        }
    };
    let consumable = match u32_attr(a, "_consumable"@) {
        Some(c) => c,
        None => match u32_attr(a, "_consumableplayerpower"@) {
            Some(c) => c,
            None => 0,
        },
    };
    &&& info.player_id == p.persona_id as u64
    &&& !info.reconnect
    &&& info.faction == faction_of(a, p.is_ai)
    &&& info.general_id == general_of(a)
    &&& info.team == team
    &&& info.start_point == start_point
    &&& info.difficulty == (match i32_attr(a, "_difficulty"@) {
        Some(d) => d,
        None => 0,
    })
    &&& info.is_ai == p.is_ai
    &&& info.allegiance_levels@ == allegiance_row(team)
    &&& info.skill_tree_unlocks@.len() == 0
    &&& info.consumable_player_power == consumable
    &&& info.enable_skill_tree
}

fn i32_attr_exec(attribs: &indexmap::IndexMap<String, String>, key: &str) -> (r: Option<i32>)
    ensures
        r == i32_attr(attr_entries(*attribs), key@),
{
    match attr_get(attribs, key) {
        Some(v) => match parse_i32(&trim_vec(&str_chars(v.as_str()))) {
            Some(n) => Some(n),
            None => None,
        },
        None => None,
    }
}

pub fn u32_attr_exec(attribs: &indexmap::IndexMap<String, String>, key: &str) -> (r: Option<u32>)
    ensures
        r == u32_attr(attr_entries(*attribs), key@),
{
    match attr_get(attribs, key) {
        Some(v) => match parse_u32(&trim_vec(&str_chars(v.as_str()))) {
            Some(n) => Some(n),
            None => None,
        },
        None => None,
    }
}

pub fn faction_from_player(attribs: &indexmap::IndexMap<String, String>, is_ai: bool) -> (f: i32)
    ensures
        f == faction_of(attr_entries(*attribs), is_ai),
{
    let dflt: i32 = if is_ai {
        4
    } else {
        2
    };
    match attr_get(attribs, "_faction") {
        Some(raw) => match parse_faction_code(raw.as_str()) {
            Some(id) => id,
            None => dflt,
        },
        None => dflt,
    }
}

fn general_from_player(attribs: &indexmap::IndexMap<String, String>) -> (g: u32)
    ensures
        g == general_of(attr_entries(*attribs)),
{
    let g = match u32_attr_exec(attribs, "_general") {
        Some(n) => n,
        None => 0,
    };
    if g != 0 {
        return g;
    }
    let f = match attr_get(attribs, "_faction") {
        Some(f) => f,
        None => crate::msgsystem::wire::str_to_string("APA"),
    };
    let k = upper_vec(&trim_vec(&str_chars(f.as_str())));
    if eq_lit(&k, "ESC") || eq_lit(&k, "EU") {
        232716472
    } else if eq_lit(&k, "GLA") {
        580378690
    } else {
        2914080600
    }
}

/// The CreateGame row of a roster row whose effective start point is `effective_startpoint`.
pub fn roster_entry(p: &CncPlayer, effective_startpoint: i32) -> (info: PlayerInfo)
    requires
        p.slot < i32::MAX,
    ensures
        roster_entry_ok(info, p@, effective_startpoint),
{
    let team0 = match i32_attr_exec(&p.attribs, "_team") {
        Some(t) => t,
        None => p.team,
    };
    let team: i32 = if team0 > 1 {
        team0
    } else {
        1
    };
    let sp0: i32 = if effective_startpoint > 0 {
        effective_startpoint
    } else {
        0
    };
    let fallback_sp = p.slot + 1;
    let start_point: i32 = if sp0 > 0 {
        sp0
    } else {
        match i32_attr_exec(&p.attribs, "_startpoint") {
            Some(s) => if s > 0 {
                s
            } else {
                fallback_sp
            },
            None => fallback_sp,
        }
    };
    let difficulty = match i32_attr_exec(&p.attribs, "_difficulty") {
        Some(d) => d,
        None => 0,
    };
    let consumable = match u32_attr_exec(&p.attribs, "_consumable") {
        Some(c) => c,
        None => match u32_attr_exec(&p.attribs, "_consumableplayerpower") {
            Some(c) => c,
            None => 0,
        },
    };
    PlayerInfo {
        player_id: p.persona_id as u64,
        reconnect: false,
        faction: faction_from_player(&p.attribs, p.is_ai),
        general_id: general_from_player(&p.attribs),
        team,
        start_point,
        difficulty,
        is_ai: p.is_ai,
        allegiance_levels: allegiance_for_team(team),
        skill_tree_unlocks: Vec::new(),
        consumable_player_power: consumable,
        enable_skill_tree: true,
    }
}

// ---------------------------------------------------------------------------
// The game id of a generated UUID
// ---------------------------------------------------------------------------
proof fn lemma_hex_only_concat(x: Seq<char>, y: Seq<char>)
    ensures
        hex_only(x + y) == hex_only(x) + hex_only(y),
    decreases y.len(),
{
    if y.len() == 0 {
        assert(x + y =~= x);
        assert(hex_only(y) =~= Seq::<char>::empty());
        assert(hex_only(x) + hex_only(y) =~= hex_only(x));
    } else {
        lemma_hex_only_concat(x, y.drop_last());
        assert((x + y).drop_last() =~= x + y.drop_last());
        assert((x + y).last() == y.last());
        if is_hex(y.last()) {
            assert(hex_only(x) + hex_only(y.drop_last()).push(y.last()) =~= (hex_only(x) + hex_only(y.drop_last())).push(y.last()));
        }
    }
}

proof fn lemma_hex_only_all_hex_id(s: Seq<char>)
    requires
        forall|i: int| 0 <= i < s.len() ==> is_hex(#[trigger] s[i]),
    ensures
        hex_only(s) == s,
    decreases s.len(),
{
    if s.len() > 0 {
        lemma_hex_only_all_hex_id(s.drop_last());
        assert(s.drop_last().push(s.last()) =~= s);
    } else {
        assert(hex_only(s) =~= s);
    }
}

proof fn lemma_hex_digit(n: u8)
    requires
        n < 16,
    ensures
        is_hex(crate::cnc::game_state::hex_digit(n)),
        hex_value(crate::cnc::game_state::hex_digit(n)) == n,
{
}

proof fn lemma_hex_run(b: Seq<u8>)
    ensures
        crate::cnc::game_state::hex_run(b).len() == 2 * b.len(),
        forall|i: int|
            0 <= i < b.len() ==> #[trigger] crate::cnc::game_state::hex_run(b)[2 * i] == crate::cnc::game_state::hex_digit(
                (b[i] / 16) as u8,
            ) && crate::cnc::game_state::hex_run(b)[2 * i + 1] == crate::cnc::game_state::hex_digit((b[i] % 16) as u8),
    decreases b.len(),
{
    if b.len() > 0 {
        lemma_hex_run(b.drop_last());
        let r = crate::cnc::game_state::hex_run(b.drop_last());
        assert forall|i: int| 0 <= i < b.len() implies #[trigger] crate::cnc::game_state::hex_run(b)[2 * i]
            == crate::cnc::game_state::hex_digit((b[i] / 16) as u8) && crate::cnc::game_state::hex_run(b)[2 * i + 1]
            == crate::cnc::game_state::hex_digit((b[i] % 16) as u8) by {
            if i < b.len() - 1 {
                assert(b.drop_last()[i] == b[i]);
                assert(r[2 * i] == crate::cnc::game_state::hex_digit((b.drop_last()[i] / 16) as u8));
            }
        }
    }
}

proof fn lemma_hex_run_concat(x: Seq<u8>, y: Seq<u8>)
    ensures
        crate::cnc::game_state::hex_run(x + y) == crate::cnc::game_state::hex_run(x) + crate::cnc::game_state::hex_run(y),
    decreases y.len(),
{
    if y.len() == 0 {
        assert(x + y =~= x);
        assert(crate::cnc::game_state::hex_run(x) + crate::cnc::game_state::hex_run(y) =~= crate::cnc::game_state::hex_run(x));
    } else {
        lemma_hex_run_concat(x, y.drop_last());
        assert((x + y).drop_last() =~= x + y.drop_last());
        assert((x + y).last() == y.last());
        assert(crate::cnc::game_state::hex_run(x) + (crate::cnc::game_state::hex_run(y.drop_last()) + crate::cnc::game_state::hex2(y.last()))
            =~= (crate::cnc::game_state::hex_run(x) + crate::cnc::game_state::hex_run(y.drop_last())) + crate::cnc::game_state::hex2(y.last()));
    }
}

/// The game id that CreateGame carries for a game whose UUID was generated
/// from bytes `b` is `b` itself.
pub proof fn law_guid_of_uuid(b: Seq<u8>)
    requires
        b.len() == 16,
    ensures
        guid_bytes(crate::cnc::game_state::uuid_text(b)) == b,
{
    let h = crate::cnc::game_state::hex_run(b);
    let p0 = b.subrange(0, 4);
    let p1 = b.subrange(4, 6);
    let p2 = b.subrange(6, 8);
    let p3 = b.subrange(8, 10);
    let p4 = b.subrange(10, 16);
    assert(b =~= p0 + p1 + p2 + p3 + p4);
    lemma_hex_run_concat(p0, p1);
    lemma_hex_run_concat(p0 + p1, p2);
    lemma_hex_run_concat(p0 + p1 + p2, p3);
    lemma_hex_run_concat(p0 + p1 + p2 + p3, p4);
    let d = "-"@;
    reveal_strlit("-");
    assert(!is_hex('-'));
    assert(hex_only(d) =~= Seq::<char>::empty()) by {
        assert(d.len() == 1 && d[0] == '-');
        assert(d.drop_last() =~= Seq::<char>::empty());
        assert(hex_only(d.drop_last()) =~= Seq::<char>::empty());
        assert(d.last() == '-');
    }
    lemma_hex_run(b);
    assert forall|i: int| 0 <= i < h.len() implies is_hex(#[trigger] h[i]) by {
        let k = i / 2;
        assert(0 <= k < b.len());
        assert(h[2 * k] == crate::cnc::game_state::hex_digit((b[k] / 16) as u8));
        assert(h[2 * k + 1] == crate::cnc::game_state::hex_digit((b[k] % 16) as u8));
        lemma_hex_digit((b[k] / 16) as u8);
        lemma_hex_digit((b[k] % 16) as u8);
        if i % 2 == 0 {
            assert(i == 2 * k);
        } else {
            assert(i == 2 * k + 1);
        }
    }
    let h0 = crate::cnc::game_state::hex_run(p0);
    let h1 = crate::cnc::game_state::hex_run(p1);
    let h2 = crate::cnc::game_state::hex_run(p2);
    let h3 = crate::cnc::game_state::hex_run(p3);
    let h4 = crate::cnc::game_state::hex_run(p4);
    assert(h == h0 + h1 + h2 + h3 + h4);
    lemma_hex_run(p0);
    lemma_hex_run(p1);
    lemma_hex_run(p2);
    lemma_hex_run(p3);
    lemma_hex_run(p4);
    assert forall|i: int| 0 <= i < h0.len() implies is_hex(#[trigger] h0[i]) by { assert(h0[i] == h[i]); }
    assert forall|i: int| 0 <= i < h1.len() implies is_hex(#[trigger] h1[i]) by { assert(h1[i] == h[h0.len() + i]); }
    assert forall|i: int| 0 <= i < h2.len() implies is_hex(#[trigger] h2[i]) by { assert(h2[i] == h[h0.len() + h1.len() + i]); }
    assert forall|i: int| 0 <= i < h3.len() implies is_hex(#[trigger] h3[i]) by {
        assert(h3[i] == h[h0.len() + h1.len() + h2.len() + i]);
    }
    assert forall|i: int| 0 <= i < h4.len() implies is_hex(#[trigger] h4[i]) by {
        assert(h4[i] == h[h0.len() + h1.len() + h2.len() + h3.len() + i]);
    }
    lemma_hex_only_all_hex_id(h0);
    lemma_hex_only_all_hex_id(h1);
    lemma_hex_only_all_hex_id(h2);
    lemma_hex_only_all_hex_id(h3);
    lemma_hex_only_all_hex_id(h4);
    let t = crate::cnc::game_state::uuid_text(b);
    assert(t == h0 + d + h1 + d + h2 + d + h3 + d + h4);
    lemma_hex_only_concat(h0, d);
    lemma_hex_only_concat(h0 + d, h1);
    lemma_hex_only_concat(h0 + d + h1, d);
    lemma_hex_only_concat(h0 + d + h1 + d, h2);
    lemma_hex_only_concat(h0 + d + h1 + d + h2, d);
    lemma_hex_only_concat(h0 + d + h1 + d + h2 + d, h3);
    lemma_hex_only_concat(h0 + d + h1 + d + h2 + d + h3, d);
    lemma_hex_only_concat(h0 + d + h1 + d + h2 + d + h3 + d, h4);
    assert(hex_only(t) =~= h);
    assert forall|i: int| 0 <= i < 16 implies #[trigger] guid_bytes(t)[i] == b[i] by {
        lemma_hex_digit((b[i] / 16) as u8);
        lemma_hex_digit((b[i] % 16) as u8);
        assert(h[2 * i] == crate::cnc::game_state::hex_digit((b[i] / 16) as u8));
        assert(h[2 * i + 1] == crate::cnc::game_state::hex_digit((b[i] % 16) as u8));
    }
    assert(guid_bytes(t) =~= b);
}

} // verus!
