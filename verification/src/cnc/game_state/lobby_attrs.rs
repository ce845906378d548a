//! Lobby player attributes: writes kept per (gid, persona) until a roster row
//! exists, their application to live rows, and the `_general` defaults that a
//! CreateGame roster needs.
use vstd::prelude::*;
use crate::cnc::game_state::{
    best_reset, attr_entries, blob_entries, attr_get, attr_index, attr_insert, attr_inserted, attr_value, dec_i64_string,
    first_player, first_player_exec, game_index, game_map_or_empty, game_of, lemma_first_player,
    lobby_attrs_view, max_i64, pending_map_of, players_view, update_game, CncPlayer, GameRegistry,
    GameView, LobbyAttrs, LobbyAttrsView, PlayerView, RegistryView, DEFAULT_MAP_PATH,
    PROS_STAT_ACTIVE_CONNECTING,
};
use crate::msgsystem::wire::str_to_string;
use crate::text::{
    contains_chars, contains_seq, dec_int, eq_lit, lower, lower_vec, parse_i32, parse_int_in,
    str_chars, trim, trim_vec, upper, upper_vec,
};
use crate::cnc::create_game::{guid_bytes, roster_entry, roster_entry_ok, uuid_to_guid_bytes, CreateGameRequest};
use crate::msgsystem::simucloud::{create_game_options, create_game_options_spec, split_map_path, split_map_path_spec, PlayerInfo};
use indexmap::IndexMap;

verus! {

broadcast use vstd::string::group_string_axioms;

/// Generals (`RtsGeneral.ServerId`) used when a roster row names none.
pub const GENERAL_APA_CLASSIC: &'static str = "2914080600";

pub const GENERAL_APA_TUTORIAL: &'static str = "497011786";

pub const GENERAL_EU_TUTORIAL: &'static str = "3463861546";

pub const GENERAL_EU_CLASSIC: &'static str = "232716472";

pub const GENERAL_GLA_CLASSIC: &'static str = "580378690";

pub const GENERAL_GLA_TUTORIAL: &'static str = "145977592";

// ---------------------------------------------------------------------------
// Attribute maps
// ---------------------------------------------------------------------------
pub open spec fn pairs_view(v: Seq<(String, String)>) -> Seq<(Seq<char>, Seq<char>)> {
    v.map_values(|x: (String, String)| (x.0@, x.1@))
}

/// The pairs without the one of `key` (the others keep their order).
pub open spec fn attr_removed(s: Seq<(Seq<char>, Seq<char>)>, key: Seq<char>) -> Seq<(Seq<char>, Seq<char>)> {
    if attr_index(s, key) >= 0 {
        s.remove(attr_index(s, key))
    } else {
        s
    }
}

/// `IndexMap::iter`, cloned: every pair, in insertion order.
#[verifier::external_body]
pub(crate) fn attr_pairs(m: &IndexMap<String, String>) -> (v: Vec<(String, String)>)
    ensures
        pairs_view(v@) == attr_entries(*m),
{
    m.iter().map(|(k, v)| (k.clone(), v.clone())).collect()
}

/// `IndexMap::clone`: the same pairs in the same order.
#[verifier::external_body]
pub(crate) fn attr_clone(m: &IndexMap<String, String>) -> (c: IndexMap<String, String>)
    ensures
        attr_entries(c) == attr_entries(*m),
{
    m.clone()
}

/// `IndexMap::new`: an empty attribute map.
#[verifier::external_body]
pub(crate) fn attr_new() -> (m: IndexMap<String, String>)
    ensures
        attr_entries(m) == Seq::<(Seq<char>, Seq<char>)>::empty(),
{
    IndexMap::new()
}

/// `IndexMap::new` for the custom-data blobs of a new roster row.
#[verifier::external_body]
pub(crate) fn blob_map_new() -> (m: IndexMap<String, Vec<u8>>)
    ensures
        blob_entries(m) == Seq::<(Seq<char>, Seq<u8>)>::empty(),
{
    IndexMap::new()
}

/// `IndexMap::shift_remove`: the pair of `key` goes and the others keep their order.
#[verifier::external_body]
fn attr_shift_remove(m: &mut IndexMap<String, String>, key: &str)
    ensures
        attr_entries(*final(m)) == attr_removed(attr_entries(*old(m)), key@),
{
    m.shift_remove(key);
}

proof fn lemma_attr_index(s: Seq<(Seq<char>, Seq<char>)>, key: Seq<char>, i: int)
    requires
        0 <= i <= s.len(),
        forall|k: int| 0 <= k < i ==> (#[trigger] s[k]).0 != key,
    ensures
        i < s.len() && s[i].0 == key ==> attr_index(s, key) == i,
        i == s.len() ==> attr_index(s, key) == -1,
    decreases i,
{
    if i > 0 {
        assert forall|k: int| 0 <= k < i - 1 implies (#[trigger] s.drop_first()[k]).0 != key by {
            assert(s.drop_first()[k] == s[k + 1]);
        }
        lemma_attr_index(s.drop_first(), key, i - 1);
    }
}

/// The value of `key` among `pairs` (its first pair).
pub(crate) fn pairs_get(pairs: &Vec<(String, String)>, key: &str) -> (r: Option<String>)
    ensures
        match r {
            Some(v) => attr_value(pairs_view(pairs@), key@) == Some(v@),
            None => attr_value(pairs_view(pairs@), key@) is None,
        },
{
    let ghost s = pairs_view(pairs@);
    let k = str_chars(key);
    let mut i: usize = 0;
    while i < pairs.len()
        invariant
            i <= pairs@.len(),
            s == pairs_view(pairs@),
            k@ == key@,
            forall|j: int| 0 <= j < i ==> (#[trigger] s[j]).0 != key@,
        decreases pairs@.len() - i,
    {
        assert(s[i as int] == (pairs@[i as int].0@, pairs@[i as int].1@));
        if crate::text::chars_eq(&str_chars(pairs[i].0.as_str()), &k) {
            proof {
                lemma_attr_index(s, key@, i as int);
            }
            return Some(pairs[i].1.clone());
        }
        i = i + 1;
    }
    proof {
        lemma_attr_index(s, key@, i as int);
    }
    None
}

// ---------------------------------------------------------------------------
// Reading attributes
// ---------------------------------------------------------------------------
/// `1` or `true` (any case).
pub open spec fn truthy(v: Seq<char>) -> bool {
    v == "1"@ || lower(v) == "true"@
}

/// `_isai` marks an AI row.
pub open spec fn marks_ai(a: Seq<(Seq<char>, Seq<char>)>) -> bool {
    match attr_value(a, "_isai"@) {
        Some(v) => truthy(v),
        None => false,
    }
}

/// `str::parse::<i32>`.
pub open spec fn parsed_i32(v: Seq<char>) -> Option<i32> {
    match parse_int_in(v, true, i32::MIN as int, i32::MAX as int) {
        Some(n) => Some(n as i32),
        None => None,
    }
}

/// `_startpoint` as a number; 0 when missing or not a number.
pub open spec fn startpoint_of(a: Seq<(Seq<char>, Seq<char>)>) -> i32 {
    match attr_value(a, "_startpoint"@) {
        Some(v) => match parsed_i32(v) {
            Some(n) => n,
            None => 0,
        },
        None => 0,
    }
}

pub(crate) fn truthy_exec(v: &str) -> (b: bool)
    ensures
        b == truthy(v@),
{
    let c = str_chars(v);
    eq_lit(&c, "1") || eq_lit(&lower_vec(&c), "true")
}

fn parse_i32_str(v: &str) -> (r: Option<i32>)
    ensures
        r == parsed_i32(v@),
{
    match parse_i32(&str_chars(v)) {
        Some(n) => Some(n),
        None => None,
    }
}

/// Whether `_isai` marks the attribute map as an AI row.
pub fn attrs_mark_ai(attrs: &IndexMap<String, String>) -> (b: bool)
    ensures
        b == marks_ai(attr_entries(*attrs)),
{
    match attr_get(attrs, "_isai") {
        Some(v) => truthy_exec(v.as_str()),
        None => false,
    }
}

/// `_startpoint` of an attribute map; 0 when missing or not a number.
pub fn startpoint_from_attrs(attrs: &IndexMap<String, String>) -> (sp: i32)
    ensures
        sp == startpoint_of(attr_entries(*attrs)),
{
    match attr_get(attrs, "_startpoint") {
        Some(v) => match parse_i32_str(v.as_str()) {
            Some(n) => n,
            None => 0,
        },
        None => 0,
    }
}

fn pairs_mark_ai(pairs: &Vec<(String, String)>) -> (b: bool)
    ensures
        b == marks_ai(pairs_view(pairs@)),
{
    match pairs_get(pairs, "_isai") {
        Some(v) => truthy_exec(v.as_str()),
        None => false,
    }
}

fn pairs_startpoint(pairs: &Vec<(String, String)>) -> (sp: i32)
    ensures
        sp == startpoint_of(pairs_view(pairs@)),
{
    match pairs_get(pairs, "_startpoint") {
        Some(v) => match parse_i32_str(v.as_str()) {
            Some(n) => n,
            None => 0,
        },
        None => 0,
    }
}

// ---------------------------------------------------------------------------
// Writing attributes onto a roster row
// ---------------------------------------------------------------------------
/// A row after one attribute write: the pair is stored, and `_team`,
/// `_startpoint` (when positive) and `_isai` also move the row's own fields.
pub open spec fn player_with_attr(p: PlayerView, k: Seq<char>, v: Seq<char>) -> PlayerView {
    let q = PlayerView { attribs: attr_inserted(p.attribs, k, v), ..p };
    if k == "_team"@ {
        match parsed_i32(v) {
            Some(t) => PlayerView {
                team: if t > 1 {
                    t
                } else {
                    1
                },
                ..q
            },
            None => q,
        }
    } else if k == "_startpoint"@ {
        match parsed_i32(v) {
            Some(s) => if s > 0 {
                PlayerView { slot: (s - 1) as i32, ..q }
            } else {
                q
            },
            None => q,
        }
    } else if k == "_isai"@ {
        PlayerView { is_ai: truthy(v), ..q }
    } else {
        q
    }
}

/// Every pair of `a`, in order, written onto `p` (`_isai` left out when `skip_isai`).
pub open spec fn player_with_attrs(p: PlayerView, a: Seq<(Seq<char>, Seq<char>)>, skip_isai: bool) -> PlayerView
    decreases a.len(),
{
    if a.len() == 0 {
        p
    } else {
        let q = player_with_attrs(p, a.drop_last(), skip_isai);
        if skip_isai && a.last().0 == "_isai"@ {
            q
        } else {
            player_with_attr(q, a.last().0, a.last().1)
        }
    }
}

proof fn lemma_with_attrs_keeps(p: PlayerView, a: Seq<(Seq<char>, Seq<char>)>, skip_isai: bool)
    ensures
        player_with_attrs(p, a, skip_isai).persona_id == p.persona_id,
        player_with_attrs(p, a, skip_isai).display_name == p.display_name,
        player_with_attrs(p, a, skip_isai).ready == p.ready,
        player_with_attrs(p, a, skip_isai).stat == p.stat,
    decreases a.len(),
{
    if a.len() > 0 {
        lemma_with_attrs_keeps(p, a.drop_last(), skip_isai);
    }
}

fn apply_attr_to_player(p: &mut CncPlayer, key: &str, value: &str)
    ensures
        final(p)@ == player_with_attr(old(p)@, key@, value@),
{
    attr_insert(&mut p.attribs, str_to_string(key), str_to_string(value));
    let k = str_chars(key);
    if eq_lit(&k, "_team") {
        match parse_i32_str(value) {
            Some(t) => {
                p.team = if t > 1 {
                    t
                } else {
                    1
                };
            },
            None => {},
        }
    } else if eq_lit(&k, "_startpoint") {
        match parse_i32_str(value) {
            Some(s) => {
                if s > 0 {
                    p.slot = s - 1;
                }
            },
            None => {},
        }
    } else if eq_lit(&k, "_isai") {
        p.is_ai = truthy_exec(value);
    }
}

fn apply_attrs_to_player(p: &mut CncPlayer, pairs: &Vec<(String, String)>, skip_isai: bool)
    ensures
        final(p)@ == player_with_attrs(old(p)@, pairs_view(pairs@), skip_isai),
{
    let ghost a = pairs_view(pairs@);
    let ghost p0 = p@;
    let mut i: usize = 0;
    assert(a.subrange(0, 0) =~= Seq::<(Seq<char>, Seq<char>)>::empty());
    while i < pairs.len()
        invariant
            i <= pairs@.len(),
            a == pairs_view(pairs@),
            p@ == player_with_attrs(p0, a.subrange(0, i as int), skip_isai),
        decreases pairs@.len() - i,
    {
        let ghost t = a.subrange(0, i + 1);
        assert(t.drop_last() =~= a.subrange(0, i as int));
        assert(t.last() == (pairs@[i as int].0@, pairs@[i as int].1@));
        if skip_isai && eq_lit(&str_chars(pairs[i].0.as_str()), "_isai") {
        } else {
            apply_attr_to_player(p, pairs[i].0.as_str(), pairs[i].1.as_str());
        }
        i = i + 1;
    }
    assert(a.subrange(0, i as int) =~= a);
}

// ---------------------------------------------------------------------------
// Generals
// ---------------------------------------------------------------------------
pub open spec fn is_tutorial_map(m: Seq<char>) -> bool {
    contains_seq(lower(m), "alpha_tutorial"@)
}

pub open spec fn faction_key(f: Seq<char>) -> Seq<char> {
    upper(trim(f))
}

/// The tutorial general of a faction (EU for anything unknown).
pub open spec fn tutorial_general(f: Seq<char>) -> Seq<char> {
    let k = faction_key(f);
    if k == "APA"@ || k == "CHINA"@ || k == "CHI"@ {
        GENERAL_APA_TUTORIAL@
    } else if k == "ESC"@ || k == "EU"@ {
        GENERAL_EU_TUTORIAL@
    } else if k == "GLA"@ {
        GENERAL_GLA_TUTORIAL@
    } else {
        GENERAL_EU_TUTORIAL@
    }
}

/// The classic general of a faction; `fallback` for one that is not known.
pub open spec fn default_general(f: Seq<char>, fallback: Seq<char>) -> Seq<char> {
    let k = faction_key(f);
    if k == "APA"@ || k == "CHINA"@ || k == "CHI"@ {
        GENERAL_APA_CLASSIC@
    } else if k == "ESC"@ || k == "EU"@ {
        GENERAL_EU_CLASSIC@
    } else if k == "GLA"@ {
        GENERAL_GLA_CLASSIC@
    } else {
        fallback
    }
}

/// The general for an unknown faction: the EU tutorial one when the host's
/// map is the tutorial (or not chosen yet), else the APA classic one.
pub open spec fn fallback_general(host_map: Seq<char>) -> Seq<char> {
    if is_tutorial_map(host_map) || (host_map.len() == 0 && is_tutorial_map(DEFAULT_MAP_PATH@)) {
        GENERAL_EU_TUTORIAL@
    } else {
        GENERAL_APA_CLASSIC@
    }
}

/// A row made ready for CreateGame: on the tutorial map the tutorial general of
/// its faction; elsewhere a missing general is filled in (USA, none or no
/// faction become APA with its classic general).
pub open spec fn with_general(p: PlayerView, map_path: Seq<char>, fallback: Seq<char>) -> PlayerView {
    let map = if map_path.len() == 0 {
        DEFAULT_MAP_PATH@
    } else {
        map_path
    };
    let faction = match attr_value(p.attribs, "_faction"@) {
        Some(f) => f,
        None => "APA"@,
    };
    if is_tutorial_map(map) {
        player_with_attr(p, "_general"@, tutorial_general(faction))
    } else {
        let missing = match attr_value(p.attribs, "_general"@) {
            Some(g) => trim(g).len() == 0 || trim(g) == "0"@,
            None => true,
        };
        let k = faction_key(faction);
        if !missing {
            p
        } else if k == "USA"@ || k == "NONE"@ || k.len() == 0 || k == "0"@ {
            player_with_attr(player_with_attr(p, "_faction"@, "APA"@), "_general"@, GENERAL_APA_CLASSIC@)
        } else {
            player_with_attr(p, "_general"@, default_general(faction, fallback))
        }
    }
}

/// Whether the map is the alpha tutorial.
pub fn is_alpha_tutorial_map(map_path: &str) -> (b: bool)
    ensures
        b == is_tutorial_map(map_path@),
{
    contains_chars(&lower_vec(&str_chars(map_path)), &str_chars("alpha_tutorial"))
}

fn faction_key_exec(f: &str) -> (k: Vec<char>)
    ensures
        k@ == faction_key(f@),
{
    upper_vec(&trim_vec(&str_chars(f)))
}

pub fn tutorial_general_for_faction(faction: &str) -> (g: &'static str)
    ensures
        g@ == tutorial_general(faction@),
{
    let k = faction_key_exec(faction);
    if eq_lit(&k, "APA") || eq_lit(&k, "CHINA") || eq_lit(&k, "CHI") {
        GENERAL_APA_TUTORIAL
    } else if eq_lit(&k, "ESC") || eq_lit(&k, "EU") {
        GENERAL_EU_TUTORIAL
    } else if eq_lit(&k, "GLA") {
        GENERAL_GLA_TUTORIAL
    } else {
        GENERAL_EU_TUTORIAL
    }
}

pub fn default_general_for_faction(faction: &str, fallback: &str) -> (g: String)
    ensures
        g@ == default_general(faction@, fallback@),
{
    let k = faction_key_exec(faction);
    if eq_lit(&k, "APA") || eq_lit(&k, "CHINA") || eq_lit(&k, "CHI") {
        str_to_string(GENERAL_APA_CLASSIC)
    } else if eq_lit(&k, "ESC") || eq_lit(&k, "EU") {
        str_to_string(GENERAL_EU_CLASSIC)
    } else if eq_lit(&k, "GLA") {
        str_to_string(GENERAL_GLA_CLASSIC)
    } else {
        str_to_string(fallback)
    }
}

/// See `fallback_general`.
pub fn general_for_unknown_faction(host_map: &str) -> (g: &'static str)
    ensures
        g@ == fallback_general(host_map@),
{
    let empty = str_chars(host_map).len() == 0;
    if is_alpha_tutorial_map(host_map) || (empty && is_alpha_tutorial_map(DEFAULT_MAP_PATH)) {
        GENERAL_EU_TUTORIAL
    } else {
        GENERAL_APA_CLASSIC
    }
}

fn ensure_general_attr(p: &mut CncPlayer, map_path: &str, fallback: &str)
    ensures
        final(p)@ == with_general(old(p)@, map_path@, fallback@),
{
    let map: &str = if str_chars(map_path).len() == 0 {
        DEFAULT_MAP_PATH
    } else {
        map_path
    };
    let faction = match attr_get(&p.attribs, "_faction") {
        Some(f) => f,
        None => str_to_string("APA"),
    };
    if is_alpha_tutorial_map(map) {
        apply_attr_to_player(p, "_general", tutorial_general_for_faction(faction.as_str()));
        return;
    }
    let missing = match attr_get(&p.attribs, "_general") {
        Some(g) => {
            let t = trim_vec(&str_chars(g.as_str()));
            t.len() == 0 || eq_lit(&t, "0")
        },
        None => true,
    };
    if !missing {
        return;
    }
    let k = faction_key_exec(faction.as_str());
    if eq_lit(&k, "USA") || eq_lit(&k, "NONE") || k.len() == 0 || eq_lit(&k, "0") {
        apply_attr_to_player(p, "_faction", "APA");
        apply_attr_to_player(p, "_general", GENERAL_APA_CLASSIC);
    } else {
        let g = default_general_for_faction(faction.as_str(), fallback);
        apply_attr_to_player(p, "_general", g.as_str());
    }
}

/// The attributes of a new lobby AI row.
pub open spec fn ai_defaults(slot: i32, team: i32, faction: Seq<char>, fallback: Seq<char>) -> Seq<(Seq<char>, Seq<char>)> {
    let a1 = attr_inserted(Seq::empty(), "_isai"@, "1"@);
    let a2 = attr_inserted(a1, "_faction"@, faction);
    let a3 = attr_inserted(a2, "_team"@, dec_int(max_i64(team as int, 1)));
    let a4 = attr_inserted(a3, "_startpoint"@, dec_int(max_i64(slot + 1, 1)));
    attr_inserted(a4, "_general"@, default_general(faction, fallback))
}

fn default_ai_attribs(slot: i32, team: i32, faction: &str, fallback: &str) -> (m: IndexMap<String, String>)
    ensures
        attr_entries(m) == ai_defaults(slot, team, faction@, fallback@),
{
    let mut m = attr_new();
    attr_insert(&mut m, str_to_string("_isai"), str_to_string("1"));
    attr_insert(&mut m, str_to_string("_faction"), str_to_string(faction));
    let t: i64 = if team > 1 {
        team as i64
    } else {
        1
    };
    attr_insert(&mut m, str_to_string("_team"), dec_i64_string(t));
    let s: i64 = if slot as i64 + 1 > 1 {
        slot as i64 + 1
    } else {
        1
    };
    attr_insert(&mut m, str_to_string("_startpoint"), dec_i64_string(s));
    attr_insert(&mut m, str_to_string("_general"), default_general_for_faction(faction, fallback));
    m
}

/// Lobby AI rows posted without a persona get a negative one from their start
/// point, which never collides with a Blaze persona.
pub open spec fn synthetic_ai(startpoint: i32) -> i64 {
    if startpoint > 0 {
        -(1000 + startpoint as int) as i64
    } else {
        -1001i64
    }
}

pub fn synthetic_ai_persona(startpoint: i32) -> (pid: i64)
    ensures
        pid == synthetic_ai(startpoint),
{
    let sp: i64 = if startpoint > 0 {
        startpoint as i64
    } else {
        1
    };
    -(1000 + sp)
}

// ---------------------------------------------------------------------------
// Applying a write to the live roster
// ---------------------------------------------------------------------------
/// First human row that stands for the host (any human while there is no host).
pub open spec fn host_target(s: Seq<PlayerView>, host: i64) -> int
    decreases s.len(),
{
    if s.len() == 0 {
        -1
    } else if !s[0].is_ai && (s[0].persona_id == host || host == 0) {
        0
    } else {
        let r = host_target(s.drop_first(), host);
        if r < 0 {
            -1
        } else {
            r + 1
        }
    }
}

proof fn lemma_host_target(s: Seq<PlayerView>, host: i64, i: int)
    requires
        0 <= i <= s.len(),
        forall|k: int| 0 <= k < i ==> !(!(#[trigger] s[k]).is_ai && (s[k].persona_id == host || host == 0)),
    ensures
        i < s.len() && !s[i].is_ai && (s[i].persona_id == host || host == 0) ==> host_target(s, host) == i,
        i == s.len() ==> host_target(s, host) == -1,
    decreases i,
{
    if i > 0 {
        assert forall|k: int| 0 <= k < i - 1 implies !(!(#[trigger] s.drop_first()[k]).is_ai && (
        s.drop_first()[k].persona_id == host || host == 0)) by {
            assert(s.drop_first()[k] == s[k + 1]);
        }
        lemma_host_target(s.drop_first(), host, i - 1);
    }
}

/// The persona an AI write lands on: a negative one as given, a positive one
/// that is not the host's, else the synthetic one of its start point.
pub open spec fn ai_target_pid(host: i64, pid: i64, sp: i32) -> i64 {
    let p0 = if pid < 0 {
        pid
    } else if pid > 0 && pid != host {
        pid
    } else {
        synthetic_ai(sp)
    };
    if p0 == host || p0 == 0 {
        synthetic_ai(sp)
    } else {
        p0
    }
}

/// A new AI row for persona `pid` from the attribute write `a`.
pub open spec fn new_ai_player(count: nat, pid: i64, a: Seq<(Seq<char>, Seq<char>)>, fallback: Seq<char>) -> PlayerView {
    let sp = startpoint_of(a);
    let team0 = match attr_value(a, "_team"@) {
        Some(v) => match parsed_i32(v) {
            Some(t) => t,
            None => 2,
        },
        None => 2,
    };
    let team: i32 = if team0 > 1 {
        team0
    } else {
        1
    };
    let slot: i32 = if sp > 0 {
        (sp - 1) as i32
    } else {
        count as i32
    };
    let faction = match attr_value(a, "_faction"@) {
        Some(f) => f,
        None => "GLA"@,
    };
    PlayerView {
        persona_id: pid,
        display_name: "AI"@,
        slot,
        team,
        is_ai: true,
        ready: true,
        attribs: ai_defaults(slot, team, faction, fallback),
        custom_data: Seq::empty(),
        stat: PROS_STAT_ACTIVE_CONNECTING,
    }
}

/// The roster after the lobby write `a` of persona `pid`: an AI write updates
/// the AI row it names (or adds one); persona 0 is the host's human row; any
/// other persona updates its human rows (`_isai` is not copied onto a human).
/// Each touched row then gets its general.
pub open spec fn roster_with_attrs(
    s: Seq<PlayerView>,
    host: i64,
    pid: i64,
    a: Seq<(Seq<char>, Seq<char>)>,
    map: Seq<char>,
    fallback: Seq<char>,
) -> Seq<PlayerView> {
    if marks_ai(a) {
        let t = ai_target_pid(host, pid, startpoint_of(a));
        let k = first_player(s, t);
        if k >= 0 && (s[k].persona_id != host || s[k].is_ai) {
            s.update(k, with_general(player_with_attrs(s[k], a, false), map, fallback))
        } else {
            s.push(with_general(player_with_attrs(new_ai_player(s.len(), t, a, fallback), a, false), map, fallback))
        }
    } else if pid == 0 {
        let k = host_target(s, host);
        if k >= 0 {
            s.update(k, with_general(player_with_attrs(s[k], a, true), map, fallback))
        } else {
            s
        }
    } else {
        s.map_values(|p: PlayerView| human_row_touched(p, pid, a, map, fallback))
    }
}

/// A human row of persona `pid` after the write; other rows unchanged.
pub open spec fn human_row_touched(
    p: PlayerView,
    pid: i64,
    a: Seq<(Seq<char>, Seq<char>)>,
    map: Seq<char>,
    fallback: Seq<char>,
) -> PlayerView {
    if p.persona_id == pid && !p.is_ai {
        with_general(player_with_attrs(p, a, true), map, fallback)
    } else {
        p
    }
}

fn new_ai_row(count: usize, pid: i64, pairs: &Vec<(String, String)>, fallback: &str) -> (p: CncPlayer)
    ensures
        p@ == new_ai_player(count as nat, pid, pairs_view(pairs@), fallback@),
{
    let sp = pairs_startpoint(pairs);
    let team0: i32 = match pairs_get(pairs, "_team") {
        Some(v) => match parse_i32_str(v.as_str()) {
            Some(t) => t,
            None => 2,
        },
        None => 2,
    };
    let team: i32 = if team0 > 1 {
        team0
    } else {
        1
    };
    let slot: i32 = if sp > 0 {
        sp - 1
    } else {
        count as i32
    };
    let faction = match pairs_get(pairs, "_faction") {
        Some(f) => f,
        None => str_to_string("GLA"),
    };
    CncPlayer {
        persona_id: pid,
        display_name: str_to_string("AI"),
        slot,
        team,
        is_ai: true,
        ready: true,
        attribs: default_ai_attribs(slot, team, faction.as_str(), fallback),
        custom_data: blob_map_new(),
        stat: PROS_STAT_ACTIVE_CONNECTING,
    }
}

fn host_target_exec(players: &Vec<CncPlayer>, host: i64) -> (r: Option<usize>)
    ensures
        match r {
            Some(k) => k < players@.len() && host_target(players_view(players@), host) == k,
            None => host_target(players_view(players@), host) == -1,
        },
{
    let ghost ps = players_view(players@);
    let mut k: usize = 0;
    while k < players.len()
        invariant
            k <= players@.len(),
            ps == players_view(players@),
            forall|j: int| 0 <= j < k ==> !(!(#[trigger] ps[j]).is_ai && (ps[j].persona_id == host || host == 0)),
        decreases players@.len() - k,
    {
        assert(ps[k as int] == players@[k as int]@);
        if !players[k].is_ai && (players[k].persona_id == host || host == 0) {
            proof {
                lemma_host_target(ps, host, k as int);
            }
            return Some(k);
        }
        k = k + 1;
    }
    proof {
        lemma_host_target(ps, host, k as int);
    }
    None
}

/// Row `k` after the write and its general.
fn touch_row(players: &mut Vec<CncPlayer>, k: usize, pairs: &Vec<(String, String)>, skip_isai: bool, map: &str, fallback: &str)
    requires
        k < old(players)@.len(),
    ensures
        players_view(final(players)@) == players_view(old(players)@).update(
            k as int,
            with_general(player_with_attrs(players_view(old(players)@)[k as int], pairs_view(pairs@), skip_isai), map@, fallback@),
        ),
{
    let ghost ps = players_view(players@);
    let mut p = players.remove(k);
    assert(p@ == ps[k as int]);
    apply_attrs_to_player(&mut p, pairs, skip_isai);
    ensure_general_attr(&mut p, map, fallback);
    let ghost pv = p@;
    players.insert(k, p);
    assert(players_view(players@) =~= ps.update(k as int, pv));
}

fn roster_apply(
    players: &mut Vec<CncPlayer>,
    host: i64,
    pid: i64,
    pairs: &Vec<(String, String)>,
    map: &str,
    fallback: &str,
)
    ensures
        players_view(final(players)@) == roster_with_attrs(
            players_view(old(players)@),
            host,
            pid,
            pairs_view(pairs@),
            map@,
            fallback@,
        ),
{
    let ghost ps = players_view(players@);
    let ghost a = pairs_view(pairs@);
    if pairs_mark_ai(pairs) {
        let t0: i64 = if pid < 0 {
            pid
        } else if pid > 0 && pid != host {
            pid
        } else {
            synthetic_ai_persona(pairs_startpoint(pairs))
        };
        let t: i64 = if t0 == host || t0 == 0 {
            synthetic_ai_persona(pairs_startpoint(pairs))
        } else {
            t0
        };
        assert(t == ai_target_pid(host, pid, startpoint_of(a)));
        match first_player_exec(players, t) {
            Some(k) => {
                assert(ps[k as int] == players@[k as int]@);
                if players[k].persona_id != host || players[k].is_ai {
                    touch_row(players, k, pairs, false, map, fallback);
                    return;
                }
            },
            None => {},
        }
        let mut np = new_ai_row(players.len(), t, pairs, fallback);
        apply_attrs_to_player(&mut np, pairs, false);
        ensure_general_attr(&mut np, map, fallback);
        let ghost nv = np@;
        players.push(np);
        assert(players_view(players@) =~= ps.push(nv));
    } else if pid == 0 {
        match host_target_exec(players, host) {
            Some(k) => touch_row(players, k, pairs, true, map, fallback),
            None => {},
        }
    } else {
        let mut k: usize = 0;
        while k < players.len()
            invariant
                k <= players@.len(),
                players@.len() == ps.len(),
                a == pairs_view(pairs@),
                forall|j: int| 0 <= j < k ==> (#[trigger] players_view(players@)[j]) == human_row_touched(ps[j], pid, a, map@, fallback@),
                forall|j: int| k <= j < ps.len() ==> (#[trigger] players_view(players@)[j]) == ps[j],
            decreases players@.len() - k,
        {
            let ghost before = players_view(players@);
            assert(before[k as int] == players@[k as int]@);
            assert(before[k as int] == ps[k as int]);
            if players[k].persona_id == pid && !players[k].is_ai {
                touch_row(players, k, pairs, true, map, fallback);
            }
            assert(players_view(players@).len() == players@.len());
            assert(players_view(players@)[k as int] == human_row_touched(ps[k as int], pid, a, map@, fallback@));
            k = k + 1;
        }
        assert(players_view(players@) =~= ps.map_values(|p: PlayerView| human_row_touched(p, pid, a, map@, fallback@)));
    }
}

// ---------------------------------------------------------------------------
// The registry's lobby writes
// ---------------------------------------------------------------------------
/// The map of `gid` (see `GameRegistry::get_map_path`).
pub open spec fn map_path_spec(r: RegistryView, gid: i64) -> Seq<char> {
    match pending_map_of(r.pending_maps, gid) {
        Some(x) => if x.0.len() > 0 {
            x.0
        } else {
            game_map_or_empty(r.games, gid)
        },
        None => game_map_or_empty(r.games, gid),
    }
}

/// The registry after the lobby write `a` of `pid` reached the live roster of `gid`.
pub open spec fn live_applied(
    r: RegistryView,
    gid: i64,
    pid: i64,
    a: Seq<(Seq<char>, Seq<char>)>,
    fallback: Seq<char>,
) -> RegistryView {
    match game_of(r.games, gid) {
        Some(g) => update_game(
            r,
            game_index(r.games, gid),
            GameView {
                players: roster_with_attrs(g.players, g.host_persona, pid, a, map_path_spec(r, gid), fallback),
                ..g
            },
        ),
        None => r,
    }
}

/// Position of the (gid, persona) writes, or -1.
pub open spec fn lobby_index(s: Seq<LobbyAttrsView>, gid: i64, pid: i64) -> int
    decreases s.len(),
{
    if s.len() == 0 {
        -1
    } else if s[0].gid == gid && s[0].persona_id == pid {
        0
    } else {
        let r = lobby_index(s.drop_first(), gid, pid);
        if r < 0 {
            -1
        } else {
            r + 1
        }
    }
}

pub open spec fn lobby_attrs_of(s: Seq<LobbyAttrsView>, gid: i64, pid: i64) -> Option<Seq<(Seq<char>, Seq<char>)>> {
    if lobby_index(s, gid, pid) >= 0 {
        Some(s[lobby_index(s, gid, pid)].attrs)
    } else {
        None
    }
}

proof fn lemma_lobby_index(s: Seq<LobbyAttrsView>, gid: i64, pid: i64, i: int)
    requires
        0 <= i <= s.len(),
        forall|k: int| 0 <= k < i ==> !((#[trigger] s[k]).gid == gid && s[k].persona_id == pid),
    ensures
        i < s.len() && s[i].gid == gid && s[i].persona_id == pid ==> lobby_index(s, gid, pid) == i,
        i == s.len() ==> lobby_index(s, gid, pid) == -1,
    decreases i,
{
    if i > 0 {
        assert forall|k: int| 0 <= k < i - 1 implies !((#[trigger] s.drop_first()[k]).gid == gid
            && s.drop_first()[k].persona_id == pid) by {
            assert(s.drop_first()[k] == s[k + 1]);
        }
        lemma_lobby_index(s.drop_first(), gid, pid, i - 1);
    }
}

/// `a` with every pair of `pairs` inserted, in order.
pub open spec fn attrs_with(a: Seq<(Seq<char>, Seq<char>)>, pairs: Seq<(Seq<char>, Seq<char>)>) -> Seq<(Seq<char>, Seq<char>)>
    decreases pairs.len(),
{
    if pairs.len() == 0 {
        a
    } else {
        attr_inserted(attrs_with(a, pairs.drop_last()), pairs.last().0, pairs.last().1)
    }
}

/// The writes after `pairs` of (gid, pid) were recorded.
pub open spec fn lobby_written(
    s: Seq<LobbyAttrsView>,
    gid: i64,
    pid: i64,
    pairs: Seq<(Seq<char>, Seq<char>)>,
) -> Seq<LobbyAttrsView> {
    let i = lobby_index(s, gid, pid);
    if i >= 0 {
        s.update(i, LobbyAttrsView { attrs: attrs_with(s[i].attrs, pairs), ..s[i] })
    } else {
        s.push(LobbyAttrsView { gid, persona_id: pid, attrs: attrs_with(Seq::empty(), pairs) })
    }
}

/// The host's (persona 0) writes of `gid` without an `_isai` that marks them AI.
pub open spec fn host_ai_stripped(s: Seq<LobbyAttrsView>, gid: i64) -> Seq<LobbyAttrsView> {
    let i = lobby_index(s, gid, 0);
    if i >= 0 && marks_ai(s[i].attrs) {
        s.update(i, LobbyAttrsView { attrs: attr_removed(s[i].attrs, "_isai"@), ..s[i] })
    } else {
        s
    }
}

/// The reset gid of the host (see `GameRegistry::resolve_host_reset_gid`).
pub open spec fn host_reset_gid_spec(r: RegistryView, host: i64, registered_pool_gid: Option<i64>) -> i64 {
    match best_reset(r.games, host) {
        Some(b) => b.0,
        None => match registered_pool_gid {
            Some(g) => g,
            None => 1,
        },
    }
}

/// What `set_pending_player_attrs` leaves: an AI write without a persona goes
/// to its synthetic persona (and the host's writes lose a stray `_isai`); the
/// write is recorded and applied to the live roster.
pub open spec fn pending_attrs_set(
    r: RegistryView,
    gid: i64,
    persona_id: i64,
    a: Seq<(Seq<char>, Seq<char>)>,
    fallback: Seq<char>,
) -> RegistryView {
    if a.len() == 0 {
        r
    } else {
        let ai_host = marks_ai(a) && persona_id == 0;
        let pid = if ai_host {
            synthetic_ai(startpoint_of(a))
        } else {
            persona_id
        };
        let s0 = if ai_host {
            host_ai_stripped(r.lobby_attrs, gid)
        } else {
            r.lobby_attrs
        };
        let r1 = RegistryView { lobby_attrs: lobby_written(s0, gid, pid, a), ..r };
        live_applied(r1, gid, pid, a, fallback)
    }
}

/// A row's start point: its own when positive, else the host's (persona 0,
/// not for AI rows) then its persona's lobby write, when positive.
pub open spec fn effective_startpoint(s: Seq<LobbyAttrsView>, gid: i64, p: PlayerView) -> i32 {
    let live = startpoint_of(p.attribs);
    let from0 = if p.is_ai {
        0
    } else {
        match lobby_attrs_of(s, gid, 0) {
            Some(a) => startpoint_of(a),
            None => 0,
        }
    };
    let from_pid = if p.persona_id == 0 && p.is_ai {
        0
    } else {
        match lobby_attrs_of(s, gid, p.persona_id) {
            Some(a) => startpoint_of(a),
            None => 0,
        }
    };
    if live > 0 {
        live
    } else if from0 > 0 {
        from0
    } else if from_pid > 0 {
        from_pid
    } else {
        live
    }
}

fn attrs_insert_all(m: &mut IndexMap<String, String>, pairs: &Vec<(String, String)>)
    ensures
        attr_entries(*final(m)) == attrs_with(attr_entries(*old(m)), pairs_view(pairs@)),
{
    let ghost a = pairs_view(pairs@);
    let ghost m0 = attr_entries(*m);
    let mut i: usize = 0;
    assert(a.subrange(0, 0) =~= Seq::<(Seq<char>, Seq<char>)>::empty());
    while i < pairs.len()
        invariant
            i <= pairs@.len(),
            a == pairs_view(pairs@),
            attr_entries(*m) == attrs_with(m0, a.subrange(0, i as int)),
        decreases pairs@.len() - i,
    {
        let ghost t = a.subrange(0, i + 1);
        assert(t.drop_last() =~= a.subrange(0, i as int));
        assert(t.last() == (pairs@[i as int].0@, pairs@[i as int].1@));
        attr_insert(m, pairs[i].0.clone(), pairs[i].1.clone());
        i = i + 1;
    }
    assert(a.subrange(0, i as int) =~= a);
}

impl GameRegistry {
    fn lobby_find(&self, gid: i64, pid: i64) -> (r: Option<usize>)
        ensures
            match r {
                Some(i) => i < self@.lobby_attrs.len() && lobby_index(self@.lobby_attrs, gid, pid) == i,
                None => lobby_index(self@.lobby_attrs, gid, pid) == -1,
            },
    {
        let ghost s = self@.lobby_attrs;
        let mut i: usize = 0;
        while i < self.lobby_attrs.len()
            invariant
                i <= self.lobby_attrs@.len(),
                s == lobby_attrs_view(self.lobby_attrs@),
                forall|k: int| 0 <= k < i ==> !((#[trigger] s[k]).gid == gid && s[k].persona_id == pid),
            decreases self.lobby_attrs@.len() - i,
        {
            assert(s[i as int] == self.lobby_attrs@[i as int]@);
            if self.lobby_attrs[i].gid == gid && self.lobby_attrs[i].persona_id == pid {
                proof {
                    lemma_lobby_index(s, gid, pid, i as int);
                }
                return Some(i);
            }
            i = i + 1;
        }
        proof {
            lemma_lobby_index(s, gid, pid, i as int);
        }
        None
    }

    /// The lobby writes recorded for (gid, persona), in write order.
    pub fn pending_player_attrs(&self, gid: i64, persona_id: i64) -> (r: Option<Vec<(String, String)>>)
        ensures
            match r {
                Some(v) => lobby_attrs_of(self@.lobby_attrs, gid, persona_id) == Some(pairs_view(v@)),
                None => lobby_attrs_of(self@.lobby_attrs, gid, persona_id) is None,
            },
    {
        match self.lobby_find(gid, persona_id) {
            Some(i) => {
                assert(self@.lobby_attrs[i as int] == self.lobby_attrs@[i as int]@);
                Some(attr_pairs(&self.lobby_attrs[i].attrs))
            },
            None => None,
        }
    }

    fn write_pending_player_attrs(&mut self, gid: i64, pid: i64, pairs: &Vec<(String, String)>)
        ensures
            final(self)@ == (RegistryView {
                lobby_attrs: lobby_written(old(self)@.lobby_attrs, gid, pid, pairs_view(pairs@)),
                ..old(self)@
            }),
    {
        proof {
            use_type_invariant(&*self);
        }
        let ghost s = self@.lobby_attrs;
        let found = self.lobby_find(gid, pid);
        let mut v: Vec<LobbyAttrs> = Vec::new();
        std::mem::swap(&mut v, &mut self.lobby_attrs);
        assert(lobby_attrs_view(v@) == s);
        match found {
            Some(i) => {
                let mut x = v.remove(i);
                assert(x@ == s[i as int]);
                attrs_insert_all(&mut x.attrs, pairs);
                let ghost xv = x@;
                v.insert(i, x);
                assert(lobby_attrs_view(v@) =~= s.update(i as int, xv));
            },
            None => {
                let mut m = attr_new();
                attrs_insert_all(&mut m, pairs);
                let x = LobbyAttrs { gid, persona_id: pid, attrs: m };
                let ghost xv = x@;
                v.push(x);
                assert(lobby_attrs_view(v@) =~= s.push(xv));
            },
        }
        self.lobby_attrs = v;
    }

    fn strip_poisoned_host_ai_pending(&mut self, gid: i64)
        ensures
            final(self)@ == (RegistryView { lobby_attrs: host_ai_stripped(old(self)@.lobby_attrs, gid), ..old(self)@ }),
    {
        proof {
            use_type_invariant(&*self);
        }
        let ghost s = self@.lobby_attrs;
        let i = match self.lobby_find(gid, 0) {
            Some(i) => i,
            None => return,
        };
        assert(s[i as int] == self.lobby_attrs@[i as int]@);
        if !attrs_mark_ai(&self.lobby_attrs[i].attrs) {
            return;
        }
        let mut v: Vec<LobbyAttrs> = Vec::new();
        std::mem::swap(&mut v, &mut self.lobby_attrs);
        let mut x = v.remove(i);
        attr_shift_remove(&mut x.attrs, "_isai");
        let ghost xv = x@;
        v.insert(i, x);
        assert(lobby_attrs_view(v@) =~= s.update(i as int, xv));
        self.lobby_attrs = v;
    }

    fn apply_pending_attrs_to_live_game(&mut self, gid: i64, pid: i64, pairs: &Vec<(String, String)>, fallback: &str)
        ensures
            final(self)@ == live_applied(old(self)@, gid, pid, pairs_view(pairs@), fallback@),
    {
        proof {
            use_type_invariant(&*self);
        }
        let map = self.get_map_path(gid);
        let i = match self.find_game(gid) {
            Some(i) => i,
            None => return,
        };
        let ghost before = self@.games;
        let mut g = self.take_game(i);
        let ghost gv = g@;
        let mut players: Vec<CncPlayer> = Vec::new();
        std::mem::swap(&mut players, &mut g.players);
        roster_apply(&mut players, g.host_persona, pid, pairs, map.as_str(), fallback);
        g.players = players;
        assert(g@ == (GameView {
            players: roster_with_attrs(gv.players, gv.host_persona, pid, pairs_view(pairs@), map@, fallback@),
            ..gv
        }));
        self.put_game(i, g, Ghost(before));
    }

    /// The `_general` for a faction that is not known: it follows the map of
    /// the host's reset gid.
    pub fn general_fallback(&self, host: i64, registered_pool_gid: Option<i64>) -> (g: &'static str)
        ensures
            g@ == fallback_general(map_path_spec(self@, host_reset_gid_spec(self@, host, registered_pool_gid))),
    {
        let gid = self.resolve_host_reset_gid(host, registered_pool_gid);
        let map = self.get_map_path(gid);
        general_for_unknown_faction(map.as_str())
    }

    /// Records lobby player attributes of (gid, persona) and applies them to the
    /// live roster. Persona 0 is the host unless `_isai` marks an AI row.
    pub fn set_pending_player_attrs(
        &mut self,
        gid: i64,
        persona_id: i64,
        attrs: IndexMap<String, String>,
        host: i64,
        registered_pool_gid: Option<i64>,
    )
        ensures
            final(self)@ == pending_attrs_set(
                old(self)@,
                gid,
                persona_id,
                attr_entries(attrs),
                fallback_general(map_path_spec(old(self)@, host_reset_gid_spec(old(self)@, host, registered_pool_gid))),
            ),
    {
        let pairs = attr_pairs(&attrs);
        if pairs.len() == 0 {
            return;
        }
        let fallback = self.general_fallback(host, registered_pool_gid);
        let ghost r0 = self@;
        let mut pid = persona_id;
        if pairs_mark_ai(&pairs) && persona_id == 0 {
            pid = synthetic_ai_persona(pairs_startpoint(&pairs));
            self.strip_poisoned_host_ai_pending(gid);
        }
        self.write_pending_player_attrs(gid, pid, &pairs);
        proof {
            assert(map_path_spec(self@, gid) == map_path_spec(r0, gid));
        }
        self.apply_pending_attrs_to_live_game(gid, pid, &pairs, fallback);
    }

    /// The start point of `player` in `gid`: its own pick, else the lobby's.
    pub fn effective_startpoint_for_player(&self, gid: i64, player: &CncPlayer) -> (sp: i32)
        ensures
            sp == effective_startpoint(self@.lobby_attrs, gid, player@),
    {
        let live = startpoint_from_attrs(&player.attribs);
        if live > 0 {
            return live;
        }
        if !player.is_ai {
            match self.lobby_find(gid, 0) {
                Some(i) => {
                    assert(self@.lobby_attrs[i as int] == self.lobby_attrs@[i as int]@);
                    let sp = startpoint_from_attrs(&self.lobby_attrs[i].attrs);
                    if sp > 0 {
                        return sp;
                    }
                },
                None => {},
            }
        }
        if !(player.persona_id == 0 && player.is_ai) {
            match self.lobby_find(gid, player.persona_id) {
                Some(i) => {
                    assert(self@.lobby_attrs[i as int] == self.lobby_attrs@[i as int]@);
                    let sp = startpoint_from_attrs(&self.lobby_attrs[i].attrs);
                    if sp > 0 {
                        return sp;
                    }
                },
                None => {},
            }
        }
        live
    }
}

/// A lobby write of `gid` with its start point put back to random when `reset`.
pub open spec fn lobby_sp_reset(x: LobbyAttrsView, gid: i64, capacity: Option<i32>) -> LobbyAttrsView {
    let hit = match capacity {
        None => attr_index(x.attrs, "_startpoint"@) >= 0,
        Some(c) => startpoint_of(x.attrs) > c,
    };
    if x.gid == gid && hit {
        LobbyAttrsView { attrs: attr_inserted(x.attrs, "_startpoint"@, "0"@), ..x }
    } else {
        x
    }
}

/// A roster row with its start point put back to random (every row, or those
/// beyond `capacity`).
pub open spec fn row_sp_reset(p: PlayerView, capacity: Option<i32>) -> PlayerView {
    let hit = match capacity {
        None => true,
        Some(c) => startpoint_of(p.attribs) > c,
    };
    if hit {
        PlayerView { attribs: attr_inserted(p.attribs, "_startpoint"@, "0"@), ..p }
    } else {
        p
    }
}

pub open spec fn startpoints_reset(r: RegistryView, gid: i64, capacity: Option<i32>) -> RegistryView {
    let r1 = RegistryView {
        lobby_attrs: r.lobby_attrs.map_values(|x: LobbyAttrsView| lobby_sp_reset(x, gid, capacity)),
        ..r
    };
    match game_of(r.games, gid) {
        Some(g) => update_game(
            r1,
            game_index(r.games, gid),
            GameView { players: g.players.map_values(|p: PlayerView| row_sp_reset(p, capacity)), ..g },
        ),
        None => r1,
    }
}

/// First game other than `dedicated_gid` hosted by `host`, or -1.
pub open spec fn host_lobby(s: Seq<GameView>, dedicated_gid: i64, host: i64) -> int
    decreases s.len(),
{
    if s.len() == 0 {
        -1
    } else if s[0].gid != dedicated_gid && s[0].host_persona == host {
        0
    } else {
        let r = host_lobby(s.drop_first(), dedicated_gid, host);
        if r < 0 {
            -1
        } else {
            r + 1
        }
    }
}

proof fn lemma_host_lobby(s: Seq<GameView>, dedicated_gid: i64, host: i64, i: int)
    requires
        0 <= i <= s.len(),
        forall|k: int| 0 <= k < i ==> !((#[trigger] s[k]).gid != dedicated_gid && s[k].host_persona == host),
    ensures
        i < s.len() && s[i].gid != dedicated_gid && s[i].host_persona == host ==> host_lobby(s, dedicated_gid, host) == i,
        i == s.len() ==> host_lobby(s, dedicated_gid, host) == -1,
    decreases i,
{
    if i > 0 {
        assert forall|k: int| 0 <= k < i - 1 implies !((#[trigger] s.drop_first()[k]).gid != dedicated_gid
            && s.drop_first()[k].host_persona == host) by {
            assert(s.drop_first()[k] == s[k + 1]);
        }
        lemma_host_lobby(s.drop_first(), dedicated_gid, host, i - 1);
    }
}

impl GameRegistry {
    fn reset_startpoints(&mut self, gid: i64, capacity: Option<i32>)
        ensures
            final(self)@ == startpoints_reset(old(self)@, gid, capacity),
    {
        proof {
            use_type_invariant(&*self);
        }
        let ghost s = self@.lobby_attrs;
        let mut v: Vec<LobbyAttrs> = Vec::new();
        std::mem::swap(&mut v, &mut self.lobby_attrs);
        let mut k: usize = 0;
        while k < v.len()
            invariant
                k <= v@.len(),
                v@.len() == s.len(),
                forall|j: int| 0 <= j < k ==> (#[trigger] lobby_attrs_view(v@)[j]) == lobby_sp_reset(s[j], gid, capacity),
                forall|j: int| k <= j < s.len() ==> (#[trigger] lobby_attrs_view(v@)[j]) == s[j],
            decreases v@.len() - k,
        {
            let ghost before = lobby_attrs_view(v@);
            assert(before[k as int] == v@[k as int]@);
            let hit = v[k].gid == gid && match capacity {
                None => attr_index_exec_contains(&v[k].attrs, "_startpoint"),
                Some(c) => startpoint_from_attrs(&v[k].attrs) > c,
            };
            if hit {
                let mut x = v.remove(k);
                attr_insert(&mut x.attrs, str_to_string("_startpoint"), str_to_string("0"));
                let ghost xv = x@;
                v.insert(k, x);
                assert(lobby_attrs_view(v@) =~= before.update(k as int, xv));
            }
            assert(lobby_attrs_view(v@)[k as int] == lobby_sp_reset(s[k as int], gid, capacity));
            k = k + 1;
        }
        assert(lobby_attrs_view(v@) =~= s.map_values(|x: LobbyAttrsView| lobby_sp_reset(x, gid, capacity)));
        self.lobby_attrs = v;
        let i = match self.find_game(gid) {
            Some(i) => i,
            None => return,
        };
        let ghost games_before = self@.games;
        let mut g = self.take_game(i);
        let ghost ps = players_view(g.players@);
        let mut players: Vec<CncPlayer> = Vec::new();
        std::mem::swap(&mut players, &mut g.players);
        let mut k: usize = 0;
        while k < players.len()
            invariant
                k <= players@.len(),
                players@.len() == ps.len(),
                forall|j: int| 0 <= j < k ==> (#[trigger] players_view(players@)[j]) == row_sp_reset(ps[j], capacity),
                forall|j: int| k <= j < ps.len() ==> (#[trigger] players_view(players@)[j]) == ps[j],
            decreases players@.len() - k,
        {
            let ghost before = players_view(players@);
            assert(before[k as int] == players@[k as int]@);
            let hit = match capacity {
                None => true,
                Some(c) => startpoint_from_attrs(&players[k].attribs) > c,
            };
            if hit {
                let mut p = players.remove(k);
                attr_insert(&mut p.attribs, str_to_string("_startpoint"), str_to_string("0"));
                let ghost pv = p@;
                players.insert(k, p);
                assert(players_view(players@) =~= before.update(k as int, pv));
            }
            assert(players_view(players@)[k as int] == row_sp_reset(ps[k as int], capacity));
            k = k + 1;
        }
        assert(players_view(players@) =~= ps.map_values(|p: PlayerView| row_sp_reset(p, capacity)));
        g.players = players;
        self.put_game(i, g, Ghost(games_before));
    }

    /// Start-point picks of `gid` put back to random once CreateGame has taken
    /// the roster (so a rematch does not reuse them).
    pub fn flush_lobby_startpoints(&mut self, gid: i64)
        ensures
            final(self)@ == startpoints_reset(old(self)@, gid, None),
    {
        self.reset_startpoints(gid, None);
    }

    /// Start-point picks of `gid` beyond `capacity` put back to random.
    pub fn clamp_lobby_startpoints(&mut self, gid: i64, capacity: i32)
        ensures
            final(self)@ == if capacity <= 0 {
                old(self)@
            } else {
                startpoints_reset(old(self)@, gid, Some(capacity))
            },
    {
        if capacity <= 0 {
            return;
        }
        self.reset_startpoints(gid, Some(capacity));
    }

    /// Records the lobby's map choice with its start-slot count (0: unknown)
    /// as the pending map of `gid` and on its game row.
    fn write_pending_map(&mut self, gid: i64, map_path: &str, start_count: i32)
        ensures
            final(self)@ == pending_written(old(self)@, gid, map_path@, start_count),
    {
        proof {
            use_type_invariant(&*self);
        }
        let ghost before_maps = self@.pending_maps;
        let mut maps: Vec<crate::cnc::game_state::PendingMap> = Vec::new();
        std::mem::swap(&mut maps, &mut self.pending_maps);
        let m = crate::cnc::game_state::PendingMap { gid, path: str_to_string(map_path), start_count };
        let ghost mv = (m.gid, m.path@, m.start_count);
        maps.push(m);
        assert(crate::cnc::game_state::pending_map_view(maps@) =~= before_maps.push(mv));
        self.pending_maps = maps;
        match self.find_game(gid) {
            Some(i) => {
                let ghost before = self@.games;
                let mut g = self.take_game(i);
                g.map_path = str_to_string(map_path);
                if start_count > 0 {
                    g.start_count = start_count;
                }
                self.put_game(i, g, Ghost(before));
            },
            None => {},
        }
    }

    /// Records the lobby's map choice with its start-slot count (0: unknown);
    /// picks beyond that count go back to random.
    pub fn set_map_selection(&mut self, gid: i64, map_path: &str, start_count: i32)
        ensures
            ({
                let r2 = pending_written(old(self)@, gid, map_path@, start_count);
                final(self)@ == if start_count <= 0 {
                    r2
                } else {
                    startpoints_reset(r2, gid, Some(start_count))
                }
            }),
    {
        self.write_pending_map(gid, map_path, start_count);
        self.clamp_lobby_startpoints(gid, start_count);
    }

    /// The pending map of the host's first other lobby (by gid) that has a
    /// non-empty one, adopted by `dedicated_gid` when that has no map yet.
    pub fn adopt_host_lobby_pending_into(&mut self, dedicated_gid: i64, host: i64) -> (r: Option<String>)
        ensures
            ({
                let (m, after) = adopted_pending(old(self)@, dedicated_gid, host);
                &&& final(self)@ == after
                &&& match r {
                    Some(p) => m == Some(p@),
                    None => m is None,
                }
            }),
    {
        if str_chars(self.get_map_path(dedicated_gid).as_str()).len() > 0 {
            return None;
        }
        assert(map_path_spec(self@, dedicated_gid).len() == 0);
        let ghost r0 = self@;
        assert(r0 == old(self)@);
        let ghost n = r0.games.len() as int;
        let mut k: usize = 0;
        while k < self.games.len()
            invariant
                k <= self.games@.len(),
                self@ == r0,
                n == r0.games.len(),
                r0 == old(self)@,
                map_path_spec(r0, dedicated_gid).len() == 0,
                first_adoptable(r0, dedicated_gid, host, k as int) == -1,
            decreases self.games@.len() - k,
        {
            assert(r0.games[k as int] == self.games@[k as int]@);
            let g = self.games[k].gid;
            if g != dedicated_gid && self.games[k].host_persona == host {
                match self.pending_map_path(g) {
                    Some(p) => {
                        if str_chars(p.as_str()).len() > 0 {
                            let sc = self.pending_start_count_exec(g);
                            assert(r0.games[k as int].gid == g);
                            assert(pending_map_of(r0.pending_maps, g) matches Some(x) && x.0 == p@ && x.1 == sc);
                            assert(adoptable(r0, r0.games[k as int], dedicated_gid, host));
                            assert(first_adoptable(r0, dedicated_gid, host, k + 1) == k as int);
                            proof {
                                lemma_first_adoptable_stable(r0, dedicated_gid, host, k as int + 1, n);
                            }
                            assert(self@ == r0);
                            self.write_pending_map(dedicated_gid, p.as_str(), sc);
                            assert(self@ == pending_written(r0, dedicated_gid, p@, sc));
                            assert(adopted_pending(r0, dedicated_gid, host) == (Some(p@), pending_written(r0, dedicated_gid, p@, sc)));
                            return Some(p);
                        }
                    },
                    None => {},
                }
            }
            k = k + 1;
        }
        None
    }

    fn host_lobby_exec(&self, dedicated_gid: i64, host: i64) -> (r: Option<usize>)
        ensures
            match r {
                Some(k) => k < self@.games.len() && host_lobby(self@.games, dedicated_gid, host) == k,
                None => host_lobby(self@.games, dedicated_gid, host) == -1,
            },
    {
        let ghost s = self@.games;
        let mut k: usize = 0;
        while k < self.games.len()
            invariant
                k <= self.games@.len(),
                s == self@.games,
                forall|j: int| 0 <= j < k ==> !((#[trigger] s[j]).gid != dedicated_gid && s[j].host_persona == host),
            decreases self.games@.len() - k,
        {
            assert(s[k as int] == self.games@[k as int]@);
            if self.games[k].gid != dedicated_gid && self.games[k].host_persona == host {
                proof {
                    lemma_host_lobby(s, dedicated_gid, host, k as int);
                }
                return Some(k);
            }
            k = k + 1;
        }
        proof {
            lemma_host_lobby(s, dedicated_gid, host, k as int);
        }
        None
    }

    /// Copies the progression options of the host's lobby (the first game
    /// other than `dedicated_gid` that `host` hosts) onto `dedicated_gid`; the
    /// oil economy stays off.
    pub fn adopt_host_lobby_match_options_into(&mut self, dedicated_gid: i64, host: i64)
        ensures
            ({
                let s = old(self)@.games;
                let k = host_lobby(s, dedicated_gid, host);
                final(self)@ == if k >= 0 && game_of(s, dedicated_gid) is Some {
                    let src = s[k];
                    let g = game_of(s, dedicated_gid).unwrap();
                    update_game(
                        old(self)@,
                        game_index(s, dedicated_gid),
                        GameView {
                            enable_special_abilities: src.enable_special_abilities,
                            enable_tech_tree: src.enable_tech_tree,
                            enable_oil_economy: false,
                            enable_infinite_resource_centers: src.enable_infinite_resource_centers,
                            enable_unlock_full_faction_roster: src.enable_unlock_full_faction_roster,
                            ..g
                        },
                    )
                } else {
                    old(self)@
                }
            }),
    {
        proof {
            use_type_invariant(&*self);
        }
        let k = match self.host_lobby_exec(dedicated_gid, host) {
            Some(k) => k,
            None => return,
        };
        assert(self@.games[k as int] == self.games@[k as int]@);
        let special = self.games[k].enable_special_abilities;
        let tech = self.games[k].enable_tech_tree;
        let infinite = self.games[k].enable_infinite_resource_centers;
        let full_roster = self.games[k].enable_unlock_full_faction_roster;
        let i = match self.find_game(dedicated_gid) {
            Some(i) => i,
            None => return,
        };
        let ghost before = self@.games;
        let mut g = self.take_game(i);
        g.enable_special_abilities = special;
        g.enable_tech_tree = tech;
        g.enable_oil_economy = false;
        g.enable_infinite_resource_centers = infinite;
        g.enable_unlock_full_faction_roster = full_roster;
        self.put_game(i, g, Ghost(before));
    }
}

fn attr_index_exec_contains(m: &IndexMap<String, String>, key: &str) -> (b: bool)
    ensures
        b == (attr_index(attr_entries(*m), key@) >= 0),
{
    crate::cnc::game_state::attr_contains(m, key)
}

// ---------------------------------------------------------------------------
// Adopting the host lobby's writes
// ---------------------------------------------------------------------------
/// The lobby writes of `gid`, in order.
pub open spec fn writes_of(s: Seq<LobbyAttrsView>, gid: i64) -> Seq<LobbyAttrsView>
    decreases s.len(),
{
    if s.len() == 0 {
        s
    } else if s.last().gid == gid {
        writes_of(s.drop_last(), gid).push(s.last())
    } else {
        writes_of(s.drop_last(), gid)
    }
}

/// The first game (by gid) other than `dedicated_gid`, hosted by `host`, that has
/// lobby writes.
pub open spec fn adopt_source(games: Seq<GameView>, s: Seq<LobbyAttrsView>, dedicated_gid: i64, host: i64) -> Option<i64>
    decreases games.len(),
{
    if games.len() == 0 {
        None
    } else if games[0].gid != dedicated_gid && games[0].host_persona == host && writes_of(s, games[0].gid).len() > 0 {
        Some(games[0].gid)
    } else {
        adopt_source(games.drop_first(), s, dedicated_gid, host)
    }
}

/// Each write of `w` (as writes of `gid`) applied to the live roster of `gid`, in order.
pub open spec fn applied_all(r: RegistryView, gid: i64, w: Seq<LobbyAttrsView>, fallback: Seq<char>) -> RegistryView
    decreases w.len(),
{
    if w.len() == 0 {
        r
    } else {
        live_applied(applied_all(r, gid, w.drop_last(), fallback), gid, w.last().persona_id, w.last().attrs, fallback)
    }
}

/// What `adopt_host_lobby_pending_attrs_into` leaves: when `dedicated_gid` has
/// no lobby writes, those of the host's lobby are copied to it and applied.
pub open spec fn pending_attrs_adopted(r: RegistryView, dedicated_gid: i64, host: i64, fallback: Seq<char>) -> RegistryView {
    if writes_of(r.lobby_attrs, dedicated_gid).len() > 0 {
        r
    } else {
        match adopt_source(r.games, r.lobby_attrs, dedicated_gid, host) {
            None => r,
            Some(src) => {
                let w = writes_of(r.lobby_attrs, src);
                let moved = w.map_values(|x: LobbyAttrsView| LobbyAttrsView { gid: dedicated_gid, ..x });
                applied_all(RegistryView { lobby_attrs: r.lobby_attrs + moved, ..r }, dedicated_gid, w, fallback)
            },
        }
    }
}

impl GameRegistry {
    /// The lobby writes of `gid`, copied, with their views.
    fn writes_of_exec(&self, gid: i64) -> (w: Vec<(i64, IndexMap<String, String>)>)
        ensures
            w@.len() == writes_of(self@.lobby_attrs, gid).len(),
            forall|i: int|
                0 <= i < w@.len() ==> (#[trigger] w@[i]).0 == writes_of(self@.lobby_attrs, gid)[i].persona_id
                    && attr_entries(w@[i].1) == writes_of(self@.lobby_attrs, gid)[i].attrs,
    {
        let ghost s = self@.lobby_attrs;
        let mut w: Vec<(i64, IndexMap<String, String>)> = Vec::new();
        let mut i: usize = 0;
        assert(s.subrange(0, 0) =~= Seq::<LobbyAttrsView>::empty());
        while i < self.lobby_attrs.len()
            invariant
                i <= self.lobby_attrs@.len(),
                s == lobby_attrs_view(self.lobby_attrs@),
                w@.len() == writes_of(s.subrange(0, i as int), gid).len(),
                forall|j: int|
                    0 <= j < w@.len() ==> (#[trigger] w@[j]).0 == writes_of(s.subrange(0, i as int), gid)[j].persona_id
                        && attr_entries(w@[j].1) == writes_of(s.subrange(0, i as int), gid)[j].attrs,
            decreases self.lobby_attrs@.len() - i,
        {
            let ghost t = s.subrange(0, i + 1);
            assert(t.drop_last() =~= s.subrange(0, i as int));
            assert(t.last() == self.lobby_attrs@[i as int]@);
            if self.lobby_attrs[i].gid == gid {
                let e = (self.lobby_attrs[i].persona_id, attr_clone(&self.lobby_attrs[i].attrs));
                w.push(e);
            }
            i = i + 1;
        }
        assert(s.subrange(0, i as int) =~= s);
        w
    }

    fn adopt_source_exec(&self, dedicated_gid: i64, host: i64) -> (r: Option<i64>)
        ensures
            r == adopt_source(self@.games, self@.lobby_attrs, dedicated_gid, host),
    {
        let ghost s = self@.games;
        let mut k: usize = 0;
        assert(s.subrange(0, s.len() as int) =~= s);
        while k < self.games.len()
            invariant
                k <= self.games@.len(),
                s == self@.games,
                adopt_source(s, self@.lobby_attrs, dedicated_gid, host) == adopt_source(
                    s.subrange(k as int, s.len() as int),
                    self@.lobby_attrs,
                    dedicated_gid,
                    host,
                ),
            decreases self.games@.len() - k,
        {
            let ghost t = s.subrange(k as int, s.len() as int);
            assert(t[0] == self.games@[k as int]@);
            assert(t.drop_first() =~= s.subrange(k + 1, s.len() as int));
            let g = self.games[k].gid;
            if g != dedicated_gid && self.games[k].host_persona == host && self.writes_of_exec(g).len() > 0 {
                return Some(g);
            }
            k = k + 1;
        }
        None
    }

    /// A dedicated gid without lobby writes takes those of the host's lobby
    /// (copied to it and applied to its roster).
    pub fn adopt_host_lobby_pending_attrs_into(&mut self, dedicated_gid: i64, host: i64, registered_pool_gid: Option<i64>)
        ensures
            final(self)@ == pending_attrs_adopted(
                old(self)@,
                dedicated_gid,
                host,
                fallback_general(map_path_spec(old(self)@, host_reset_gid_spec(old(self)@, host, registered_pool_gid))),
            ),
    {
        proof {
            use_type_invariant(&*self);
        }
        if self.writes_of_exec(dedicated_gid).len() > 0 {
            return;
        }
        let src = match self.adopt_source_exec(dedicated_gid, host) {
            Some(g) => g,
            None => return,
        };
        let fallback = self.general_fallback(host, registered_pool_gid);
        let ghost r0 = self@;
        let ghost wv = writes_of(r0.lobby_attrs, src);
        let ghost moved = wv.map_values(|x: LobbyAttrsView| LobbyAttrsView { gid: dedicated_gid, ..x });
        let w = self.writes_of_exec(src);
        let mut v: Vec<LobbyAttrs> = Vec::new();
        std::mem::swap(&mut v, &mut self.lobby_attrs);
        let mut i: usize = 0;
        while i < w.len()
            invariant
                i <= w@.len(),
                w@.len() == wv.len(),
                forall|j: int| 0 <= j < w@.len() ==> (#[trigger] w@[j]).0 == wv[j].persona_id && attr_entries(w@[j].1) == wv[j].attrs,
                moved == wv.map_values(|x: LobbyAttrsView| LobbyAttrsView { gid: dedicated_gid, ..x }),
                lobby_attrs_view(v@) == r0.lobby_attrs + moved.subrange(0, i as int),
            decreases w@.len() - i,
        {
            let x = LobbyAttrs { gid: dedicated_gid, persona_id: w[i].0, attrs: attr_clone(&w[i].1) };
            let ghost before = lobby_attrs_view(v@);
            let ghost xv = x@;
            v.push(x);
            assert(xv == moved[i as int]);
            assert(moved.subrange(0, i + 1) =~= moved.subrange(0, i as int).push(moved[i as int]));
            assert(lobby_attrs_view(v@) =~= before.push(xv));
            i = i + 1;
        }
        assert(moved.subrange(0, i as int) =~= moved);
        self.lobby_attrs = v;
        let ghost r1 = self@;
        assert(r1 == (RegistryView { lobby_attrs: r0.lobby_attrs + moved, ..r0 }));
        let mut k: usize = 0;
        assert(wv.subrange(0, 0) =~= Seq::<LobbyAttrsView>::empty());
        while k < w.len()
            invariant
                k <= w@.len(),
                w@.len() == wv.len(),
                forall|j: int| 0 <= j < w@.len() ==> (#[trigger] w@[j]).0 == wv[j].persona_id && attr_entries(w@[j].1) == wv[j].attrs,
                self@ == applied_all(r1, dedicated_gid, wv.subrange(0, k as int), fallback@),
            decreases w@.len() - k,
        {
            let ghost t = wv.subrange(0, k + 1);
            assert(t.drop_last() =~= wv.subrange(0, k as int));
            assert(t.last() == wv[k as int]);
            let pairs = attr_pairs(&w[k].1);
            self.apply_pending_attrs_to_live_game(dedicated_gid, w[k].0, &pairs, fallback);
            k = k + 1;
        }
        assert(wv.subrange(0, k as int) =~= wv);
    }
}

// ---------------------------------------------------------------------------
// Seeding a game row for a join
// ---------------------------------------------------------------------------
/// The attributes of a new human row.
pub open spec fn human_defaults(map: Seq<char>, team: i32) -> Seq<(Seq<char>, Seq<char>)> {
    let faction = if is_tutorial_map(map) {
        "EU"@
    } else {
        "APA"@
    };
    let general = if is_tutorial_map(map) {
        GENERAL_EU_TUTORIAL@
    } else {
        GENERAL_APA_CLASSIC@
    };
    let a1 = attr_inserted(Seq::empty(), "_faction"@, faction);
    let a2 = attr_inserted(a1, "_isai"@, "0"@);
    let a3 = attr_inserted(a2, "_team"@, dec_int(max_i64(team as int, 1)));
    let a4 = attr_inserted(a3, "_startpoint"@, "0"@);
    attr_inserted(a4, "_general"@, general)
}

pub(crate) fn default_human_attribs_for_map(map_path: &str, team: i32) -> (m: IndexMap<String, String>)
    ensures
        attr_entries(m) == human_defaults(map_path@, team),
{
    let tutorial = is_alpha_tutorial_map(map_path);
    let mut m = attr_new();
    attr_insert(&mut m, str_to_string("_faction"), str_to_string(if tutorial { "EU" } else { "APA" }));
    attr_insert(&mut m, str_to_string("_isai"), str_to_string("0"));
    let t: i64 = if team > 1 {
        team as i64
    } else {
        1
    };
    attr_insert(&mut m, str_to_string("_team"), dec_i64_string(t));
    attr_insert(&mut m, str_to_string("_startpoint"), str_to_string("0"));
    attr_insert(
        &mut m,
        str_to_string("_general"),
        str_to_string(if tutorial { GENERAL_EU_TUTORIAL } else { GENERAL_APA_CLASSIC }),
    );
    m
}

/// A row with the lobby writes of `gid` laid over it: the host's (persona 0,
/// unless they mark an AI and the row is human) then its persona's; then its
/// general.
pub open spec fn merged_row(s: Seq<LobbyAttrsView>, gid: i64, p: PlayerView, map: Seq<char>, fallback: Seq<char>) -> PlayerView {
    let p1 = match lobby_attrs_of(s, gid, 0) {
        Some(a) => if !marks_ai(a) || p.is_ai {
            player_with_attrs(p, a, false)
        } else {
            p
        },
        None => p,
    };
    let p2 = if p.persona_id != 0 {
        match lobby_attrs_of(s, gid, p.persona_id) {
            Some(a) => player_with_attrs(p1, a, false),
            None => p1,
        }
    } else {
        p1
    };
    with_general(p2, map, fallback)
}

/// The game row a join seeds for `gid`, hosted by `host` with the host's row.
pub open spec fn joined_game(gid: i64, host: i64, map_path: Seq<char>, start_count: i32, host_row: PlayerView, uuid: Seq<char>) -> GameView {
    GameView {
        gid,
        name: "Skirmish"@,
        host_persona: host,
        max_players: 8,
        players: seq![host_row],
        uuid,
        phase: crate::cnc::game_state::GamePhase::Resetable,
        map_path,
        start_count,
        dedicated_session_id: None,
        is_standby: false,
        password: Seq::empty(),
        enable_special_abilities: true,
        enable_tech_tree: true,
        enable_oil_economy: false,
        enable_infinite_resource_centers: false,
        enable_unlock_full_faction_roster: false,
        replicated_wire: None,
        pros_wire: None,
    }
}

/// The host's row in a seeded game.
pub open spec fn seeded_host_row(r: RegistryView, gid: i64, host: i64, host_name: Seq<char>, fallback: Seq<char>) -> PlayerView {
    let m = map_path_spec(r, gid);
    let map = if m.len() == 0 {
        DEFAULT_MAP_PATH@
    } else {
        m
    };
    let p = PlayerView {
        persona_id: host,
        display_name: host_name,
        slot: 0,
        team: 1,
        is_ai: false,
        ready: true,
        attribs: human_defaults(map, 1),
        custom_data: Seq::empty(),
        stat: PROS_STAT_ACTIVE_CONNECTING,
    };
    merged_row(r.lobby_attrs, gid, p, map, fallback)
}

/// The start-slot count of the lobby's pending map, 0 without one.
pub open spec fn pending_start_count(r: RegistryView, gid: i64) -> i32 {
    match pending_map_of(r.pending_maps, gid) {
        Some(x) => x.1,
        None => 0,
    }
}

/// What `seed_from_join` leaves (`before` to `after`).
pub open spec fn join_seeded(
    before: RegistryView,
    after: RegistryView,
    gid: i64,
    host: i64,
    host_name: Seq<char>,
    registered_pool_gid: Option<i64>,
) -> bool {
    match game_of(before.games, gid) {
        Some(_) => after == before,
        None => exists|u: Seq<u8>|
            #![trigger crate::cnc::game_state::uuid_v4_bytes(u)]
            u.len() == 16 && after == (RegistryView {
                games: crate::cnc::game_state::games_inserted(
                    before.games,
                    joined_game(
                        gid,
                        host,
                        map_path_spec(before, gid),
                        pending_start_count(before, gid),
                        seeded_host_row(
                            before,
                            gid,
                            host,
                            host_name,
                            fallback_general(
                                map_path_spec(before, host_reset_gid_spec(before, host, registered_pool_gid)),
                            ),
                        ),
                        crate::cnc::game_state::uuid_text(crate::cnc::game_state::uuid_v4_bytes(u)),
                    ),
                ),
                ..before
            }),
    }
}

impl GameRegistry {
    pub(crate) fn merge_pending_into_player(&self, gid: i64, p: &mut CncPlayer, map_path: &str, fallback: &str)
        ensures
            final(p)@ == merged_row(self@.lobby_attrs, gid, old(p)@, map_path@, fallback@),
    {
        let was_ai = p.is_ai;
        let ghost p0 = p@;
        match self.lobby_find(gid, 0) {
            Some(i) => {
                assert(self@.lobby_attrs[i as int] == self.lobby_attrs@[i as int]@);
                if !attrs_mark_ai(&self.lobby_attrs[i].attrs) || was_ai {
                    let pairs = attr_pairs(&self.lobby_attrs[i].attrs);
                    apply_attrs_to_player(p, &pairs, false);
                    proof {
                        lemma_with_attrs_keeps(p0, pairs_view(pairs@), false);
                    }
                }
            },
            None => {},
        }
        if p.persona_id != 0 {
            match self.lobby_find(gid, p.persona_id) {
                Some(i) => {
                    assert(self@.lobby_attrs[i as int] == self.lobby_attrs@[i as int]@);
                    let pairs = attr_pairs(&self.lobby_attrs[i].attrs);
                    apply_attrs_to_player(p, &pairs, false);
                },
                None => {},
            }
        }
        ensure_general_attr(p, map_path, fallback);
    }

    fn pending_start_count_exec(&self, gid: i64) -> (n: i32)
        ensures
            n == pending_start_count(self@, gid),
    {
        let ghost s = self@.pending_maps;
        let mut i: usize = self.pending_maps.len();
        assert(s.subrange(0, i as int) =~= s);
        while i > 0
            invariant
                i <= self.pending_maps@.len(),
                s == crate::cnc::game_state::pending_map_view(self.pending_maps@),
                pending_map_of(s, gid) == pending_map_of(s.subrange(0, i as int), gid),
            decreases i,
        {
            let ghost t = s.subrange(0, i as int);
            assert(t.drop_last() =~= s.subrange(0, i - 1));
            if self.pending_maps[i - 1].gid == gid {
                return self.pending_maps[i - 1].start_count;
            }
            i = i - 1;
        }
        0
    }

    /// Seeds the row of `gid` for a join when there is none: `host` (shown as
    /// `host_name`) in slot 0 with the lobby's writes, a fresh UUID.
    pub fn seed_from_join(&mut self, gid: i64, host: i64, host_name: &str, registered_pool_gid: Option<i64>)
        ensures
            join_seeded(old(self)@, final(self)@, gid, host, host_name@, registered_pool_gid),
    {
        proof {
            use_type_invariant(&*self);
        }
        if self.find_game(gid).is_some() {
            return;
        }
        let fallback = self.general_fallback(host, registered_pool_gid);
        let map_path = self.get_map_path(gid);
        let map_for_defaults: &str = if str_chars(map_path.as_str()).len() == 0 {
            DEFAULT_MAP_PATH
        } else {
            map_path.as_str()
        };
        let mut host_player = CncPlayer {
            persona_id: host,
            display_name: str_to_string(host_name),
            slot: 0,
            team: 1,
            is_ai: false,
            ready: true,
            attribs: default_human_attribs_for_map(map_for_defaults, 1),
            custom_data: blob_map_new(),
            stat: PROS_STAT_ACTIVE_CONNECTING,
        };
        self.merge_pending_into_player(gid, &mut host_player, map_for_defaults, fallback);
        let start_count = self.pending_start_count_exec(gid);
        let b = crate::cnc::game_state::random_bytes16();
        let uuid = crate::cnc::game_state::uuid_v4_string(b);
        let ghost hv = host_player@;
        let mut players: Vec<CncPlayer> = Vec::new();
        players.push(host_player);
        let g = crate::cnc::game_state::CncGame {
            gid,
            name: str_to_string("Skirmish"),
            host_persona: host,
            max_players: 8,
            players,
            uuid,
            phase: crate::cnc::game_state::GamePhase::Resetable,
            map_path,
            start_count,
            dedicated_session_id: None,
            is_standby: false,
            password: String::new(),
            enable_special_abilities: true,
            enable_tech_tree: true,
            enable_oil_economy: false,
            enable_infinite_resource_centers: false,
            enable_unlock_full_faction_roster: false,
            replicated_wire: None,
            pros_wire: None,
        };
        assert(players_view(g.players@) =~= seq![hv]);
        assert(b@.len() == 16);
        self.insert_game(g);
    }
}

// ---------------------------------------------------------------------------
// The CreateGame request of a match
// ---------------------------------------------------------------------------
/// Every row's slot leaves room for the `slot + 1` start point fallback.
pub open spec fn slots_ok(s: Seq<PlayerView>) -> bool {
    forall|i: int| 0 <= i < s.len() ==> (#[trigger] s[i]).slot < i32::MAX
}

/// The map a match is created on: its own, else the lobby's active map.
pub open spec fn create_map(r: RegistryView, gid: i64) -> Seq<char> {
    let m = map_path_spec(r, gid);
    let m1 = map_path_spec(r, 1);
    if m.len() > 0 {
        m
    } else if m1.len() > 0 {
        m1
    } else {
        DEFAULT_MAP_PATH@
    }
}

/// `q` is the CreateGame request of game `g` (gid `gid`) in `r`.
pub open spec fn request_of(r: RegistryView, gid: i64, g: GameView, q: CreateGameRequest) -> bool {
    &&& q.game_id@ == guid_bytes(g.uuid)
    &&& (q.map_name@, q.dir_path@) == split_map_path_spec(create_map(r, gid))
    &&& q.options == create_game_options_spec(
        g.enable_tech_tree,
        g.enable_special_abilities,
        g.enable_oil_economy,
        g.enable_infinite_resource_centers,
    )
    &&& q.roster@.len() == g.players.len()
    &&& forall|i: int|
        0 <= i < g.players.len() ==> roster_entry_ok(
            #[trigger] q.roster@[i],
            g.players[i],
            effective_startpoint(r.lobby_attrs, gid, g.players[i]),
        )
}

impl GameRegistry {
    /// Whether every row of `gid` has a slot below `i32::MAX`.
    pub fn roster_slots_in_range(&self, gid: i64) -> (b: bool)
        ensures
            b == match game_of(self@.games, gid) {
                Some(g) => slots_ok(g.players),
                None => true,
            },
    {
        let i = match self.find_game(gid) {
            Some(i) => i,
            None => return true,
        };
        let ghost ps = self@.games[i as int].players;
        assert(ps == players_view(self.games@[i as int].players@));
        let mut k: usize = 0;
        while k < self.games[i].players.len()
            invariant
                i < self.games@.len(),
                game_index(self@.games, gid) == i,
                ps == self@.games[i as int].players,
                ps == players_view(self.games@[i as int].players@),
                k <= ps.len(),
                forall|j: int| 0 <= j < k ==> (#[trigger] ps[j]).slot < i32::MAX,
            decreases ps.len() - k,
        {
            assert(ps[k as int] == self.games@[i as int].players@[k as int]@);
            if self.games[i].players[k].slot == i32::MAX {
                assert(!slots_ok(ps));
                return false;
            }
            k = k + 1;
        }
        true
    }

    /// The CreateGame request of match `gid`: `None` without its row or with
    /// an empty roster.
    pub fn create_game_request(&self, gid: i64) -> (r: Option<CreateGameRequest>)
        requires
            match game_of(self@.games, gid) {
                Some(g) => slots_ok(g.players),
                None => true,
            },
        ensures
            match game_of(self@.games, gid) {
                None => r is None,
                Some(g) => if g.players.len() == 0 {
                    r is None
                } else {
                    r matches Some(q) && request_of(self@, gid, g, q)
                },
            },
    {
        let m = self.get_map_path(gid);
        let map = if str_chars(m.as_str()).len() > 0 {
            m
        } else {
            self.active_map_path()
        };
        let i = match self.find_game(gid) {
            Some(i) => i,
            None => return None,
        };
        let g = &self.games[i];
        let ghost gv = self@.games[i as int];
        assert(gv == g@);
        if g.players.len() == 0 {
            return None;
        }
        let (map_name, dir_path) = split_map_path(map.as_str());
        let mut roster: Vec<PlayerInfo> = Vec::new();
        let mut k: usize = 0;
        while k < g.players.len()
            invariant
                g@ == gv,
                gv == self@.games[i as int],
                gv.players == players_view(g.players@),
                slots_ok(gv.players),
                k <= gv.players.len(),
                roster@.len() == k,
                forall|j: int|
                    0 <= j < k ==> roster_entry_ok(
                        #[trigger] roster@[j],
                        gv.players[j],
                        effective_startpoint(self@.lobby_attrs, gid, gv.players[j]),
                    ),
            decreases gv.players.len() - k,
        {
            let p = &g.players[k];
            assert(gv.players[k as int] == p@);
            let eff = self.effective_startpoint_for_player(gid, p);
            let e = roster_entry(p, eff);
            roster.push(e);
            k = k + 1;
        }
        Some(CreateGameRequest {
            game_id: uuid_to_guid_bytes(g.uuid.as_str()),
            map_name,
            dir_path,
            roster,
            options: create_game_options(
                g.enable_tech_tree,
                g.enable_special_abilities,
                g.enable_oil_economy,
                g.enable_infinite_resource_centers,
            ),
        })
    }
}

// ---------------------------------------------------------------------------
// Start points before CreateGame
// ---------------------------------------------------------------------------
/// Largest positive `_startpoint` among rows (0 when none).
pub open spec fn max_sp_rows(s: Seq<PlayerView>) -> i32
    decreases s.len(),
{
    if s.len() == 0 {
        0
    } else {
        let m = max_sp_rows(s.drop_last());
        let sp = startpoint_of(s.last().attribs);
        if sp > 0 && sp > m {
            sp
        } else {
            m
        }
    }
}

/// Largest positive `_startpoint` among lobby writes (0 when none).
pub open spec fn max_sp_writes(w: Seq<LobbyAttrsView>) -> i32
    decreases w.len(),
{
    if w.len() == 0 {
        0
    } else {
        let m = max_sp_writes(w.drop_last());
        let sp = startpoint_of(w.last().attrs);
        if sp > 0 && sp > m {
            sp
        } else {
            m
        }
    }
}

/// How many start slots the map of `gid` has: the game's count, else the
/// pending map's, else the largest pick seen (rows and lobby writes), the roster
/// size and 1.
pub open spec fn startpoint_capacity(r: RegistryView, gid: i64, g: GameView) -> i32 {
    let m0 = max_sp_rows(g.players);
    let m1 = max_sp_writes(writes_of(r.lobby_attrs, gid));
    let m = if m1 > m0 {
        m1
    } else {
        m0
    };
    let n = g.players.len() as i32;
    let m2 = if n > m {
        n
    } else {
        m
    };
    if g.start_count > 0 {
        g.start_count
    } else if pending_start_count(r, gid) > 0 {
        pending_start_count(r, gid)
    } else if m2 > 1 {
        m2
    } else {
        1
    }
}

/// The effective start points of a roster.
pub open spec fn effective_startpoints(lobby: Seq<LobbyAttrsView>, gid: i64, s: Seq<PlayerView>) -> Seq<i32> {
    Seq::new(s.len(), |i: int| effective_startpoint(lobby, gid, s[i]))
}

/// Row `i` keeps its pick: positive and not taken by an earlier row.
pub open spec fn kept_pick(eff: Seq<i32>, i: int) -> bool {
    eff[i] > 0 && forall|j: int| 0 <= j < i ==> eff[j] != eff[i]
}

/// A start point some row already picked.
pub open spec fn taken(eff: Seq<i32>, v: i32) -> bool {
    v > 0 && eff.contains(v)
}

/// The ids `1..=n` that no row picked, ascending.
pub open spec fn free_upto(eff: Seq<i32>, n: int) -> Seq<i32>
    decreases n,
{
    if n <= 0 {
        Seq::empty()
    } else if taken(eff, n as i32) {
        free_upto(eff, n - 1)
    } else {
        free_upto(eff, n - 1).push(n as i32)
    }
}

/// Rows before `i` that need a pick.
pub open spec fn pick_rank(eff: Seq<i32>, i: int) -> nat
    decreases i,
{
    if i <= 0 {
        0
    } else {
        pick_rank(eff, i - 1) + if kept_pick(eff, i - 1) {
            0nat
        } else {
            1nat
        }
    }
}

/// What every run of the random assignment satisfies: kept picks stay; the
/// rows that need one get distinct free ids while free ids last, then 1.
pub open spec fn resolution_ok(eff: Seq<i32>, capacity: i32, vals: Seq<i32>) -> bool {
    let free = free_upto(eff, capacity as int);
    &&& vals.len() == eff.len()
    &&& forall|i: int| 0 <= i < eff.len() && kept_pick(eff, i) ==> #[trigger] vals[i] == eff[i]
    &&& forall|i: int|
        0 <= i < eff.len() && !kept_pick(eff, i) ==> if pick_rank(eff, i) < free.len() {
            free.contains(#[trigger] vals[i])
        } else {
            vals[i] == 1
        }
    &&& forall|i: int, j: int|
        0 <= i < j < eff.len() && !kept_pick(eff, i) && !kept_pick(eff, j) && pick_rank(eff, j) < free.len()
            ==> #[trigger] vals[i] != #[trigger] vals[j]
}

/// A row with start point `v` (and the slot it implies).
pub open spec fn row_with_sp(p: PlayerView, v: i32) -> PlayerView {
    PlayerView {
        attribs: attr_inserted(p.attribs, "_startpoint"@, dec_int(v as int)),
        slot: if v - 1 > 0 {
            (v - 1) as i32
        } else {
            0
        },
        ..p
    }
}

pub open spec fn rows_with_sps(s: Seq<PlayerView>, vals: Seq<i32>) -> Seq<PlayerView> {
    Seq::new(s.len(), |i: int| row_with_sp(s[i], vals[i]))
}

proof fn lemma_rank_step(eff: Seq<i32>, i: int, j: int)
    requires
        0 <= i < j,
        !kept_pick(eff, i),
    ensures
        pick_rank(eff, i) < pick_rank(eff, j),
    decreases j - i,
{
    if j > i + 1 {
        lemma_rank_step(eff, i, j - 1);
    }
}

proof fn lemma_free_upto(eff: Seq<i32>, n: int)
    requires
        n <= i32::MAX,
    ensures
        forall|k: int| 0 <= k < free_upto(eff, n).len() ==> 1 <= #[trigger] free_upto(eff, n)[k] <= n,
        forall|a: int, b: int| 0 <= a < b < free_upto(eff, n).len() ==> #[trigger] free_upto(eff, n)[a] < #[trigger] free_upto(eff, n)[b],
    decreases n,
{
    if n > 0 {
        lemma_free_upto(eff, n - 1);
        let r = free_upto(eff, n - 1);
        if !taken(eff, n as i32) {
            let t = r.push(n as i32);
            assert(free_upto(eff, n) == t);
            assert forall|k: int| 0 <= k < t.len() implies 1 <= #[trigger] t[k] <= n by {
                if k < r.len() {
                    assert(t[k] == r[k]);
                }
            }
            assert forall|a: int, b: int| 0 <= a < b < t.len() implies #[trigger] t[a] < #[trigger] t[b] by {
                assert(t[a] == r[a]);
                if b < r.len() {
                    assert(t[b] == r[b]);
                }
            }
        }
    }
}

proof fn lemma_rank_bound(eff: Seq<i32>, i: int)
    requires
        0 <= i,
    ensures
        pick_rank(eff, i) <= i,
    decreases i,
{
    if i > 0 {
        lemma_rank_bound(eff, i - 1);
    }
}

/// What `resolve_startpoints_before_create` leaves (`before` to `after`).
pub open spec fn startpoints_resolved(before: RegistryView, after: RegistryView, gid: i64) -> bool {
    match game_of(before.games, gid) {
        None => after == before,
        Some(g) => exists|vals: Seq<i32>|
            #![trigger rows_with_sps(g.players, vals)]
            resolution_ok(
                effective_startpoints(before.lobby_attrs, gid, g.players),
                startpoint_capacity(before, gid, g),
                vals,
            ) && after == update_game(
                before,
                game_index(before.games, gid),
                GameView { players: rows_with_sps(g.players, vals), ..g },
            ),
    }
}

impl GameRegistry {
    fn max_sp_rows_exec(players: &Vec<CncPlayer>) -> (m: i32)
        ensures
            m == max_sp_rows(players_view(players@)),
    {
        let ghost s = players_view(players@);
        let mut m: i32 = 0;
        let mut k: usize = 0;
        assert(s.subrange(0, 0) =~= Seq::<PlayerView>::empty());
        while k < players.len()
            invariant
                k <= players@.len(),
                s == players_view(players@),
                m == max_sp_rows(s.subrange(0, k as int)),
            decreases players@.len() - k,
        {
            let ghost t = s.subrange(0, k + 1);
            assert(t.drop_last() =~= s.subrange(0, k as int));
            assert(t.last() == players@[k as int]@);
            let sp = startpoint_from_attrs(&players[k].attribs);
            if sp > 0 && sp > m {
                m = sp;
            }
            k = k + 1;
        }
        assert(s.subrange(0, k as int) =~= s);
        m
    }

    fn max_sp_writes_exec(&self, gid: i64) -> (m: i32)
        ensures
            m == max_sp_writes(writes_of(self@.lobby_attrs, gid)),
    {
        let w = self.writes_of_exec(gid);
        let ghost wv = writes_of(self@.lobby_attrs, gid);
        let mut m: i32 = 0;
        let mut k: usize = 0;
        assert(wv.subrange(0, 0) =~= Seq::<LobbyAttrsView>::empty());
        while k < w.len()
            invariant
                k <= w@.len(),
                w@.len() == wv.len(),
                forall|j: int| 0 <= j < w@.len() ==> attr_entries((#[trigger] w@[j]).1) == wv[j].attrs,
                m == max_sp_writes(wv.subrange(0, k as int)),
            decreases w@.len() - k,
        {
            let ghost t = wv.subrange(0, k + 1);
            assert(t.drop_last() =~= wv.subrange(0, k as int));
            assert(t.last() == wv[k as int]);
            let sp = startpoint_from_attrs(&w[k].1);
            if sp > 0 && sp > m {
                m = sp;
            }
            k = k + 1;
        }
        assert(wv.subrange(0, k as int) =~= wv);
        m
    }

    /// Resolves lobby `?` and duplicate start points of `gid` to distinct ids
    /// before CreateGame: each row keeps the first pick of its value; the
    /// others draw free ids at random (1 once none is left).
    #[verifier::rlimit(40)]
    pub fn resolve_startpoints_before_create(&mut self, gid: i64)
        ensures
            startpoints_resolved(old(self)@, final(self)@, gid),
    {
        proof {
            use_type_invariant(&*self);
        }
        let i = match self.find_game(gid) {
            Some(i) => i,
            None => return,
        };
        let ghost r0 = self@;
        let ghost g0 = self@.games[i as int];
        assert(g0 == self.games@[i as int]@);
        // Capacity.
        let capacity: i32 = {
            let g = &self.games[i];
            if g.start_count > 0 {
                g.start_count
            } else {
                let pc = self.pending_start_count_exec(gid);
                if pc > 0 {
                    pc
                } else {
                    let m0 = Self::max_sp_rows_exec(&g.players);
                    let m1 = self.max_sp_writes_exec(gid);
                    let m = if m1 > m0 {
                        m1
                    } else {
                        m0
                    };
                    let n = g.players.len() as i32;
                    let m2 = if n > m {
                        n
                    } else {
                        m
                    };
                    if m2 > 1 {
                        m2
                    } else {
                        1
                    }
                }
            }
        };
        assert(capacity == startpoint_capacity(r0, gid, g0));
        // Effective picks.
        let ghost ps = g0.players;
        let ghost effv = effective_startpoints(r0.lobby_attrs, gid, ps);
        let mut eff: Vec<i32> = Vec::new();
        let mut k: usize = 0;
        while k < self.games[i].players.len()
            invariant
                i < self.games@.len(),
                self@ == r0,
                g0 == self@.games[i as int],
                ps == g0.players,
                ps == players_view(self.games@[i as int].players@),
                effv == effective_startpoints(r0.lobby_attrs, gid, ps),
                k <= ps.len(),
                eff@ == effv.subrange(0, k as int),
            decreases ps.len() - k,
        {
            assert(ps[k as int] == self.games@[i as int].players@[k as int]@);
            let e = self.effective_startpoint_for_player(gid, &self.games[i].players[k]);
            eff.push(e);
            assert(eff@ =~= effv.subrange(0, k + 1));
            k = k + 1;
        }
        assert(eff@ =~= effv);
        // Free ids, ascending.
        let mut free: Vec<i32> = Vec::new();
        let mut v: i64 = 1;
        let cap: i64 = capacity as i64;
        while v <= cap
            invariant
                1 <= v,
                cap == capacity,
                v <= cap + 1 || cap <= 0,
                eff@ == effv,
                free@ == free_upto(effv, v - 1),
            decreases cap - v + 1,
        {
            let vi = v as i32;
            let mut hit = false;
            let mut j: usize = 0;
            while j < eff.len()
                invariant
                    j <= eff@.len(),
                    eff@ == effv,
                    vi == v,
                    hit == exists|q: int| 0 <= q < j && eff@[q] == vi,
                decreases eff@.len() - j,
            {
                if eff[j] == vi {
                    hit = true;
                }
                j = j + 1;
            }
            assert(hit == effv.contains(vi));
            if !hit {
                free.push(vi);
            }
            assert(free@ =~= free_upto(effv, v as int));
            v = v + 1;
        }
        proof {
            if capacity > 0 {
                assert(v - 1 == capacity);
            } else {
                assert(v == 1);
            }
        }
        assert(free@ == free_upto(effv, capacity as int));
        let ghost fv = free@;
        proof {
            lemma_free_upto(effv, capacity as int);
        }
        // Picks.
        let mut vals: Vec<i32> = Vec::new();
        let mut pool = free;
        let ghost mut picked: Seq<i32> = Seq::empty();
        let mut rank: usize = 0;
        let mut k: usize = 0;
        assert(picked.len() == 0);
        while k < eff.len()
            invariant
                eff@ == effv,
                fv == free_upto(effv, capacity as int),
                forall|a: int, b: int| 0 <= a < b < fv.len() ==> #[trigger] fv[a] < #[trigger] fv[b],
                k <= eff@.len(),
                vals@.len() == k,
                rank == pick_rank(effv, k as int),
                rank <= k,
                picked.len() == if rank < fv.len() {
                    rank as int
                } else {
                    fv.len() as int
                },
                pool@.len() + picked.len() == fv.len(),
                pool@.no_duplicates(),
                picked.no_duplicates(),
                forall|x: i32| pool@.contains(x) ==> fv.contains(x) && !picked.contains(x),
                forall|x: i32| picked.contains(x) ==> fv.contains(x),
                forall|a: int| 0 <= a < k && kept_pick(effv, a) ==> #[trigger] vals@[a] == effv[a],
                forall|a: int|
                    0 <= a < k && !kept_pick(effv, a) ==> if pick_rank(effv, a) < fv.len() {
                        #[trigger] vals@[a] == picked[pick_rank(effv, a) as int]
                    } else {
                        vals@[a] == 1
                    },
            decreases eff@.len() - k,
        {
            let e = eff[k];
            let mut kept = e > 0;
            let mut j: usize = 0;
            while j < k
                invariant
                    j <= k < eff@.len(),
                    eff@ == effv,
                    e == effv[k as int],
                    kept == (e > 0 && forall|a: int| 0 <= a < j ==> effv[a] != e),
                decreases k - j,
            {
                if eff[j] == e {
                    kept = false;
                }
                j = j + 1;
            }
            assert(kept == kept_pick(effv, k as int));
            proof {
                lemma_rank_bound(effv, k as int);
            }
            let ghost vals_before = vals@;
            let ghost picked_before = picked;
            if kept {
                vals.push(e);
            } else if pool.len() > 0 {
                let r = crate::cnc::dedicated_pool::random_below(pool.len() as u64) as usize;
                let ghost before = pool@;
                let x = pool.remove(r);
                proof {
                    assert(before[r as int] == x);
                    assert(before.contains(x));
                    assert forall|y: i32| pool@.contains(y) implies before.contains(y) && y != x by {
                        let q = choose|q: int| 0 <= q < pool@.len() && pool@[q] == y;
                        if q < r {
                            assert(before[q] == y);
                        } else {
                            assert(before[q + 1] == y);
                        }
                    }
                    assert(pool@.no_duplicates()) by {
                        assert forall|a: int, b: int| 0 <= a < b < pool@.len() implies pool@[a] != pool@[b] by {
                            let a2 = if a < r { a } else { a + 1 };
                            let b2 = if b < r { b } else { b + 1 };
                            assert(pool@[a] == before[a2]);
                            assert(pool@[b] == before[b2]);
                        }
                    }
                    picked = picked.push(x);
                    assert forall|y: i32| picked.contains(y) implies fv.contains(y) by {
                        if y != x {
                            let q = choose|q: int| 0 <= q < picked.len() && picked[q] == y;
                            assert(picked_before[q] == y);
                        }
                    }
                    assert(picked.no_duplicates()) by {
                        assert forall|a: int, b: int| 0 <= a < b < picked.len() implies picked[a] != picked[b] by {
                            if b == picked.len() - 1 {
                                assert(picked_before.contains(picked[a]));
                            }
                        }
                    }
                    assert forall|y: i32| pool@.contains(y) implies fv.contains(y) && !picked.contains(y) by {
                        assert(before.contains(y));
                        if picked.contains(y) {
                            let q = choose|q: int| 0 <= q < picked.len() && picked[q] == y;
                            if q < picked_before.len() {
                                assert(picked_before.contains(y));
                            }
                        }
                    }
                    assert(picked_before.len() == rank);
                }
                vals.push(x);
                assert(vals@[k as int] == picked[rank as int]);
            } else {
                vals.push(1);
            }
            proof {
                assert(pick_rank(effv, k + 1) == pick_rank(effv, k as int) + if kept_pick(effv, k as int) { 0nat } else { 1nat });
                assert forall|a: int| 0 <= a < k && !kept_pick(effv, a) && pick_rank(effv, a) < fv.len()
                    implies vals@[a] == picked[pick_rank(effv, a) as int] by {
                    assert(vals@[a] == vals_before[a]);
                    lemma_rank_step(effv, a, k as int);
                    assert(picked[pick_rank(effv, a) as int] == picked_before[pick_rank(effv, a) as int]);
                }
            }
            if !kept {
                rank = rank + 1;
            }
            k = k + 1;
        }
        let ghost valsv = vals@;
        proof {
            assert forall|a: int| 0 <= a < effv.len() && !kept_pick(effv, a) implies if pick_rank(effv, a) < fv.len() {
                fv.contains(#[trigger] valsv[a])
            } else {
                valsv[a] == 1
            } by {
                if pick_rank(effv, a) < fv.len() {
                    lemma_rank_step(effv, a, effv.len() as int);
                    assert(picked.contains(picked[pick_rank(effv, a) as int]));
                }
            }
            assert forall|a: int, b: int|
                0 <= a < b < effv.len() && !kept_pick(effv, a) && !kept_pick(effv, b) && pick_rank(effv, b) < fv.len()
                implies #[trigger] valsv[a] != #[trigger] valsv[b] by {
                lemma_rank_step(effv, a, b);
                lemma_rank_step(effv, b, effv.len() as int);
                let ra = pick_rank(effv, a) as int;
                let rb = pick_rank(effv, b) as int;
                assert(rb < picked.len());
                assert(valsv[a] == picked[ra]);
                assert(valsv[b] == picked[rb]);
                assert(picked[ra] != picked[rb]);
            }
            assert(resolution_ok(effv, capacity, valsv));
        }
        // Write them back.
        let ghost before = self@.games;
        let mut g = self.take_game(i);
        let mut players: Vec<CncPlayer> = Vec::new();
        std::mem::swap(&mut players, &mut g.players);
        let mut k: usize = 0;
        while k < players.len()
            invariant
                k <= players@.len(),
                players@.len() == ps.len(),
                vals@ == valsv,
                valsv.len() == ps.len(),
                forall|j: int| 0 <= j < k ==> (#[trigger] players_view(players@)[j]) == row_with_sp(ps[j], valsv[j]),
                forall|j: int| k <= j < ps.len() ==> (#[trigger] players_view(players@)[j]) == ps[j],
            decreases players@.len() - k,
        {
            let ghost bv = players_view(players@);
            assert(bv[k as int] == players@[k as int]@);
            let sp = vals[k];
            let mut p = players.remove(k);
            attr_insert(&mut p.attribs, str_to_string("_startpoint"), dec_i64_string(sp as i64));
            p.slot = if sp > 1 {
                sp - 1
            } else {
                0
            };
            let ghost pv = p@;
            players.insert(k, p);
            assert(players_view(players@) =~= bv.update(k as int, pv));
            k = k + 1;
        }
        assert(players_view(players@) =~= rows_with_sps(ps, valsv));
        g.players = players;
        self.put_game(i, g, Ghost(before));
        assert(self@ == update_game(r0, i as int, GameView { players: rows_with_sps(ps, valsv), ..g0 }));
    }
}

// ---------------------------------------------------------------------------
// The run-up to CreateGame
// ---------------------------------------------------------------------------
/// The registry with the lost-server mark of `gid` cleared.
pub open spec fn conn_cleared(r: RegistryView, gid: i64) -> RegistryView {
    if gid > 0 {
        RegistryView {
            server_lost: crate::cnc::game_state::drop_lost(r.server_lost, gid),
            lost_personas: crate::cnc::game_state::lost_without_gid(r.lost_personas, gid),
            ..r
        }
    } else {
        r
    }
}

/// What follows the start-point resolution: the request of the roster when
/// there is one (and the lobby picks then go back to random).
pub open spec fn create_outcome(r3: RegistryView, gid: i64, r: Option<CreateGameRequest>, after: RegistryView) -> bool {
    match game_of(r3.games, gid) {
        None => r is None && after == r3,
        Some(g) => if g.players.len() == 0 {
            r is None && after == r3
        } else {
            r matches Some(q) && request_of(r3, gid, g, q) && after == startpoints_reset(r3, gid, None)
        },
    }
}

proof fn lemma_resolved_slots(r2: RegistryView, r3: RegistryView, gid: i64)
    requires
        startpoints_resolved(r2, r3, gid),
        crate::cnc::game_state::sorted_gids(r2.games),
    ensures
        match game_of(r3.games, gid) {
            Some(g) => slots_ok(g.players),
            None => true,
        },
{
    match game_of(r2.games, gid) {
        None => {},
        Some(g) => {
            let vals = choose|vals: Seq<i32>|
                #![trigger rows_with_sps(g.players, vals)]
                resolution_ok(effective_startpoints(r2.lobby_attrs, gid, g.players), startpoint_capacity(r2, gid, g), vals)
                    && r3 == update_game(
                    r2,
                    game_index(r2.games, gid),
                    GameView { players: rows_with_sps(g.players, vals), ..g },
                );
            let i = game_index(r2.games, gid);
            assert(r3.games[i].gid == gid);
            assert(crate::cnc::game_state::sorted_gids(r3.games)) by {
                assert forall|a: int, b: int| 0 <= a < b < r3.games.len() implies #[trigger] r3.games[a].gid
                    < #[trigger] r3.games[b].gid by {
                    assert(r3.games[a].gid == r2.games[a].gid);
                    assert(r3.games[b].gid == r2.games[b].gid);
                }
            }
            crate::cnc::game_state::lemma_game_index(r3.games, gid, i);
            let ps = rows_with_sps(g.players, vals);
            assert forall|k: int| 0 <= k < ps.len() implies (#[trigger] ps[k]).slot < i32::MAX by {
                assert(ps[k] == row_with_sp(g.players[k], vals[k]));
            }
        },
    }
}

impl GameRegistry {
    /// The run-up to SimuCloud `CreateGame` for match `gid`: its lost-server
    /// mark cleared, its row seeded for a join when missing (`host` shown as
    /// `host_name`), start points resolved; then the request of its roster,
    /// after which the lobby picks go back to random. `None` without a roster.
    pub fn prepare_create_game(
        &mut self,
        gid: i64,
        host: i64,
        host_name: &str,
        registered_pool_gid: Option<i64>,
    ) -> (r: Option<CreateGameRequest>)
        ensures
            exists|r2: RegistryView, r3: RegistryView|
                #![trigger join_seeded(conn_cleared(old(self)@, gid), r2, gid, host, host_name@, registered_pool_gid), startpoints_resolved(r2, r3, gid)]
                join_seeded(conn_cleared(old(self)@, gid), r2, gid, host, host_name@, registered_pool_gid)
                    && startpoints_resolved(r2, r3, gid) && create_outcome(r3, gid, r, final(self)@),
    {
        self.clear_match_connection_lost(gid);
        self.seed_from_join(gid, host, host_name, registered_pool_gid);
        let ghost r2 = self@;
        proof {
            use_type_invariant(&*self);
        }
        self.resolve_startpoints_before_create(gid);
        let ghost r3 = self@;
        proof {
            lemma_resolved_slots(r2, r3, gid);
        }
        let q = self.create_game_request(gid);
        match q {
            Some(q) => {
                self.flush_lobby_startpoints(gid);
                Some(q)
            },
            None => None,
        }
    }
}

// ---------------------------------------------------------------------------
// Laws
// ---------------------------------------------------------------------------
proof fn lemma_lobby_index_spec(s: Seq<LobbyAttrsView>, gid: i64, pid: i64)
    ensures
        -1 <= lobby_index(s, gid, pid) < s.len(),
        lobby_index(s, gid, pid) >= 0 ==> s[lobby_index(s, gid, pid)].gid == gid
            && s[lobby_index(s, gid, pid)].persona_id == pid,
        forall|k: int|
            0 <= k < (if lobby_index(s, gid, pid) >= 0 {
                lobby_index(s, gid, pid)
            } else {
                s.len() as int
            }) ==> !((#[trigger] s[k]).gid == gid && s[k].persona_id == pid),
    decreases s.len(),
{
    if s.len() > 0 {
        lemma_lobby_index_spec(s.drop_first(), gid, pid);
        assert forall|k: int|
            0 <= k < (if lobby_index(s, gid, pid) >= 0 {
                lobby_index(s, gid, pid)
            } else {
                s.len() as int
            }) implies !((#[trigger] s[k]).gid == gid && s[k].persona_id == pid) by {
            if k > 0 {
                assert(s[k] == s.drop_first()[k - 1]);
            }
        }
    }
}

/// Reading the lobby writes of (gid, persona) gives back what was written, on
/// top of what was there; the writes of every other (gid, persona) are untouched.
pub proof fn law_lobby_write_read(
    s: Seq<LobbyAttrsView>,
    gid: i64,
    pid: i64,
    pairs: Seq<(Seq<char>, Seq<char>)>,
    other_gid: i64,
    other_pid: i64,
)
    ensures
        lobby_attrs_of(lobby_written(s, gid, pid, pairs), gid, pid) == Some(
            attrs_with(
                match lobby_attrs_of(s, gid, pid) {
                    Some(a) => a,
                    None => Seq::empty(),
                },
                pairs,
            ),
        ),
        !(other_gid == gid && other_pid == pid) ==> lobby_attrs_of(lobby_written(s, gid, pid, pairs), other_gid, other_pid)
            == lobby_attrs_of(s, other_gid, other_pid),
{
    let t = lobby_written(s, gid, pid, pairs);
    let i = lobby_index(s, gid, pid);
    lemma_lobby_index_spec(s, gid, pid);
    lemma_lobby_index_spec(s, other_gid, other_pid);
    let j = lobby_index(s, other_gid, other_pid);
    if i >= 0 {
        assert forall|k: int| 0 <= k < i implies !((#[trigger] t[k]).gid == gid && t[k].persona_id == pid) by {
            assert(t[k] == s[k]);
        }
        lemma_lobby_index(t, gid, pid, i);
        if !(other_gid == gid && other_pid == pid) {
            let lim = if j >= 0 { j } else { s.len() as int };
            assert forall|k: int| 0 <= k < lim implies !((#[trigger] t[k]).gid == other_gid && t[k].persona_id == other_pid) by {
                if k != i {
                    assert(t[k] == s[k]);
                }
            }
            if j >= 0 {
                assert(j != i);
                assert(t[j] == s[j]);
            }
            lemma_lobby_index(t, other_gid, other_pid, lim);
        }
    } else {
        assert forall|k: int| 0 <= k < s.len() implies !((#[trigger] t[k]).gid == gid && t[k].persona_id == pid) by {
            assert(t[k] == s[k]);
        }
        lemma_lobby_index(t, gid, pid, s.len() as int);
        if !(other_gid == gid && other_pid == pid) {
            let lim = if j >= 0 { j } else { t.len() as int };
            assert forall|k: int| 0 <= k < lim implies !((#[trigger] t[k]).gid == other_gid && t[k].persona_id == other_pid) by {
                if k < s.len() {
                    assert(t[k] == s[k]);
                }
            }
            if j >= 0 {
                assert(t[j] == s[j]);
            }
            lemma_lobby_index(t, other_gid, other_pid, lim);
        }
    }
}

proof fn lemma_free_member(eff: Seq<i32>, n: int, v: i32)
    requires
        n <= i32::MAX,
        free_upto(eff, n).contains(v),
    ensures
        1 <= v <= n,
        !taken(eff, v),
    decreases n,
{
    if n > 0 {
        let r = free_upto(eff, n - 1);
        if taken(eff, n as i32) {
            lemma_free_member(eff, n - 1, v);
        } else {
            let k = choose|k: int| 0 <= k < free_upto(eff, n).len() && free_upto(eff, n)[k] == v;
            if k < r.len() {
                assert(r[k] == v);
                lemma_free_member(eff, n - 1, v);
            } else {
                assert(v == n as i32);
            }
        }
    }
}

/// Start-point resolution gives unique start ids: when the free ids cover
/// every row that needs one, all rows end with distinct positive start points,
/// and the picks that it draws stay within the map's slots.
pub proof fn law_startpoints_unique(eff: Seq<i32>, capacity: i32, vals: Seq<i32>)
    requires
        resolution_ok(eff, capacity, vals),
        pick_rank(eff, eff.len() as int) <= free_upto(eff, capacity as int).len(),
    ensures
        forall|i: int| 0 <= i < vals.len() ==> #[trigger] vals[i] > 0,
        forall|i: int| 0 <= i < vals.len() && !kept_pick(eff, i) ==> 1 <= #[trigger] vals[i] <= capacity,
        forall|i: int, j: int| 0 <= i < j < vals.len() ==> #[trigger] vals[i] != #[trigger] vals[j],
{
    let free = free_upto(eff, capacity as int);
    assert forall|i: int| 0 <= i < vals.len() && !kept_pick(eff, i) implies 1 <= #[trigger] vals[i] <= capacity
        && !taken(eff, vals[i]) by {
        lemma_rank_step(eff, i, eff.len() as int);
        lemma_free_member(eff, capacity as int, vals[i]);
    }
    assert forall|i: int| 0 <= i < vals.len() implies #[trigger] vals[i] > 0 by {
        if kept_pick(eff, i) {
            assert(vals[i] == eff[i]);
        }
    }
    assert forall|i: int, j: int| 0 <= i < j < vals.len() implies #[trigger] vals[i] != #[trigger] vals[j] by {
        if kept_pick(eff, i) && kept_pick(eff, j) {
            assert(vals[i] == eff[i]);
            assert(vals[j] == eff[j]);
        } else if kept_pick(eff, i) {
            assert(!taken(eff, vals[j]));
            assert(eff.contains(eff[i]));
        } else if kept_pick(eff, j) {
            assert(!taken(eff, vals[i]));
            assert(eff.contains(eff[j]));
        } else {
            lemma_rank_step(eff, j, eff.len() as int);
        }
    }
}

proof fn lemma_attr_index_spec(s: Seq<(Seq<char>, Seq<char>)>, key: Seq<char>)
    ensures
        -1 <= attr_index(s, key) < s.len(),
        attr_index(s, key) >= 0 ==> s[attr_index(s, key)].0 == key,
        forall|k: int|
            0 <= k < (if attr_index(s, key) >= 0 {
                attr_index(s, key)
            } else {
                s.len() as int
            }) ==> (#[trigger] s[k]).0 != key,
    decreases s.len(),
{
    if s.len() > 0 {
        lemma_attr_index_spec(s.drop_first(), key);
        assert forall|k: int|
            0 <= k < (if attr_index(s, key) >= 0 {
                attr_index(s, key)
            } else {
                s.len() as int
            }) implies (#[trigger] s[k]).0 != key by {
            if k > 0 {
                assert(s[k] == s.drop_first()[k - 1]);
            }
        }
    }
}

proof fn lemma_attr_inserted_value(s: Seq<(Seq<char>, Seq<char>)>, key: Seq<char>, value: Seq<char>)
    ensures
        attr_value(attr_inserted(s, key, value), key) == Some(value),
{
    lemma_attr_index_spec(s, key);
    let t = attr_inserted(s, key, value);
    let i = attr_index(s, key);
    if i >= 0 {
        assert forall|k: int| 0 <= k < i implies (#[trigger] t[k]).0 != key by {
            assert(t[k] == s[k]);
        }
        lemma_attr_index(t, key, i);
    } else {
        assert forall|k: int| 0 <= k < s.len() implies (#[trigger] t[k]).0 != key by {
            assert(t[k] == s[k]);
        }
        lemma_attr_index(t, key, s.len() as int);
    }
}

proof fn lemma_zero_startpoint(s: Seq<(Seq<char>, Seq<char>)>)
    ensures
        startpoint_of(attr_inserted(s, "_startpoint"@, "0"@)) == 0,
{
    lemma_attr_inserted_value(s, "_startpoint"@, "0"@);
    reveal_strlit("0");
    let z = "0"@;
    assert(z.len() == 1 && z[0] == '0');
    assert(crate::text::all_digits(z));
    assert(z.drop_last() =~= Seq::<char>::empty());
    assert(crate::text::digits_value(z.drop_last()) == 0);
    assert(crate::text::digit_value(z.last()) == 0);
    assert(crate::text::digits_value(z) == 0);
    assert(crate::text::parse_int(z, true) == Some(0int));
    assert(parsed_i32(z) == Some(0i32));
}

/// After the picks of `gid` are put back to random (every pick, or those
/// beyond `capacity`), no roster row and no lobby write of `gid` keeps a pick
/// (beyond `capacity`).
pub proof fn law_startpoints_reset(r: RegistryView, gid: i64, capacity: Option<i32>)
    requires
        crate::cnc::game_state::sorted_gids(r.games),
        capacity matches Some(c) ==> c > 0,
    ensures
        forall|k: int|
            0 <= k < startpoints_reset(r, gid, capacity).lobby_attrs.len() && (#[trigger] startpoints_reset(
                r,
                gid,
                capacity,
            ).lobby_attrs[k]).gid == gid ==> match capacity {
                None => startpoint_of(startpoints_reset(r, gid, capacity).lobby_attrs[k].attrs) <= 0 || attr_index(
                    r.lobby_attrs[k].attrs,
                    "_startpoint"@,
                ) < 0,
                Some(c) => startpoint_of(startpoints_reset(r, gid, capacity).lobby_attrs[k].attrs) <= c,
            },
        match game_of(startpoints_reset(r, gid, capacity).games, gid) {
            Some(g) => forall|k: int|
                0 <= k < g.players.len() ==> match capacity {
                    None => startpoint_of((#[trigger] g.players[k]).attribs) == 0,
                    Some(c) => startpoint_of((#[trigger] g.players[k]).attribs) <= c,
                },
            None => true,
        },
{
    let t = startpoints_reset(r, gid, capacity);
    assert forall|k: int|
        0 <= k < t.lobby_attrs.len() && (#[trigger] t.lobby_attrs[k]).gid == gid implies match capacity {
            None => startpoint_of(t.lobby_attrs[k].attrs) <= 0 || attr_index(r.lobby_attrs[k].attrs, "_startpoint"@) < 0,
            Some(c) => startpoint_of(t.lobby_attrs[k].attrs) <= c,
        } by {
        assert(t.lobby_attrs[k] == lobby_sp_reset(r.lobby_attrs[k], gid, capacity));
        lemma_zero_startpoint(r.lobby_attrs[k].attrs);
    }
    match game_of(r.games, gid) {
        None => {},
        Some(g) => {
            let i = game_index(r.games, gid);
            let g2 = GameView { players: g.players.map_values(|p: PlayerView| row_sp_reset(p, capacity)), ..g };
            assert(t.games == r.games.update(i, g2));
            assert(crate::cnc::game_state::sorted_gids(t.games)) by {
                assert forall|a: int, b: int| 0 <= a < b < t.games.len() implies #[trigger] t.games[a].gid
                    < #[trigger] t.games[b].gid by {
                    assert(t.games[a].gid == r.games[a].gid);
                    assert(t.games[b].gid == r.games[b].gid);
                }
            }
            crate::cnc::game_state::lemma_game_index(t.games, gid, i);
            assert forall|k: int| 0 <= k < g2.players.len() implies match capacity {
                None => startpoint_of((#[trigger] g2.players[k]).attribs) == 0,
                Some(c) => startpoint_of((#[trigger] g2.players[k]).attribs) <= c,
            } by {
                assert(g2.players[k] == row_sp_reset(g.players[k], capacity));
                lemma_zero_startpoint(g.players[k].attribs);
            }
        },
    }
}

/// The pending map written for `gid` with its start-slot count, and the game
/// row's map (and start count, when positive).
pub open spec fn pending_written(r: RegistryView, gid: i64, map: Seq<char>, start_count: i32) -> RegistryView {
    let r1 = RegistryView { pending_maps: r.pending_maps.push((gid, map, start_count)), ..r };
    match game_of(r.games, gid) {
        Some(g) => update_game(
            r1,
            game_index(r.games, gid),
            GameView {
                map_path: map,
                start_count: if start_count > 0 {
                    start_count
                } else {
                    g.start_count
                },
                ..g
            },
        ),
        None => r1,
    }
}

/// Game `g` is another lobby of `host` with a non-empty pending map.
pub open spec fn adoptable(r: RegistryView, g: GameView, dedicated_gid: i64, host: i64) -> bool {
    &&& g.gid != dedicated_gid
    &&& g.host_persona == host
    &&& pending_map_of(r.pending_maps, g.gid) matches Some(x) && x.0.len() > 0
}

/// The first of the first `n` games that is adoptable, or -1.
pub open spec fn first_adoptable(r: RegistryView, dedicated_gid: i64, host: i64, n: int) -> int
    decreases n,
{
    if n <= 0 {
        -1
    } else {
        let k = first_adoptable(r, dedicated_gid, host, n - 1);
        if k >= 0 {
            k
        } else if adoptable(r, r.games[n - 1], dedicated_gid, host) {
            n - 1
        } else {
            -1
        }
    }
}

pub proof fn lemma_first_adoptable_stable(r: RegistryView, dedicated_gid: i64, host: i64, m: int, n: int)
    requires
        0 <= m <= n,
        first_adoptable(r, dedicated_gid, host, m) >= 0,
    ensures
        first_adoptable(r, dedicated_gid, host, n) == first_adoptable(r, dedicated_gid, host, m),
    decreases n - m,
{
    if m < n {
        lemma_first_adoptable_stable(r, dedicated_gid, host, m, n - 1);
    }
}

/// What adopting a lobby's pending map into `dedicated_gid` gives: nothing
/// when it has a map already or no lobby of `host` has one; else that map,
/// written as its pending map with the lobby's start-slot count.
pub open spec fn adopted_pending(r: RegistryView, dedicated_gid: i64, host: i64) -> (Option<Seq<char>>, RegistryView) {
    if map_path_spec(r, dedicated_gid).len() > 0 {
        (None, r)
    } else {
        let k = first_adoptable(r, dedicated_gid, host, r.games.len() as int);
        if k < 0 {
            (None, r)
        } else {
            match pending_map_of(r.pending_maps, r.games[k].gid) {
                Some(x) => (Some(x.0), pending_written(r, dedicated_gid, x.0, x.1)),
                None => (None, r),
            }
        }
    }
}

} // verus!
