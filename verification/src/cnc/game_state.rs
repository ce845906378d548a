//! Lobby and match bookkeeping: game rows and their rosters, one-shot push
//! flags, reset orchestration and the pending lobby map.
use vstd::prelude::*;
use crate::cnc::fireframe::{OutgoingPush, PushView, pushes_view};
use crate::text::{chars_eq, chars_to_string, dec, dec_int, push_dec, push_dec_i64, push_str, str_chars};
use indexmap::IndexMap;
use rand::Rng;

pub mod lobby_attrs;
pub mod match_lost;
pub mod probe;
pub mod room;
pub mod client_row;
pub mod custom_data;

verus! {

broadcast use vstd::string::group_string_axioms;

pub const ATTR_PASSWORD_FLAG: &'static str = "_password";

pub const ATTR_PASSWORD_SECRET: &'static str = "_spw";

/// Map used when the lobby has chosen none.
pub const DEFAULT_MAP_PATH: &'static str = "Levels/SP/Alpha_Tutorial/Alpha_Tutorial";

pub const PROS_STAT_ACTIVE_CONNECTING: i32 = 2;

/// Personas given to AI players that replace leaving humans: `[MIN, MAX)`.
pub const AI_PERSONA_MIN: i64 = 9_000_000_000;

pub const AI_PERSONA_MAX: i64 = 9_800_000_000;

// ---------------------------------------------------------------------------
// Player attributes (an insertion-ordered map)
// ---------------------------------------------------------------------------
#[verifier::external_type_specification]
#[verifier::external_body]
#[verifier::reject_recursive_types(K)]
#[verifier::reject_recursive_types(V)]
#[verifier::reject_recursive_types(S)]
pub struct ExIndexMap<K, V, S>(indexmap::IndexMap<K, V, S>);

/// The key/value pairs of an attribute map, in insertion order.
pub uninterp spec fn attr_entries(m: IndexMap<String, String>) -> Seq<(Seq<char>, Seq<char>)>;

/// The key/blob pairs of a custom-data map, in insertion order.
pub uninterp spec fn blob_entries(m: IndexMap<String, Vec<u8>>) -> Seq<(Seq<char>, Seq<u8>)>;

/// Position of `key` among the pairs, or -1.
pub open spec fn attr_index(s: Seq<(Seq<char>, Seq<char>)>, key: Seq<char>) -> int
    decreases s.len(),
{
    if s.len() == 0 {
        -1
    } else if s[0].0 == key {
        0
    } else {
        let r = attr_index(s.drop_first(), key);
        if r < 0 {
            -1
        } else {
            r + 1
        }
    }
}

pub open spec fn attr_value(s: Seq<(Seq<char>, Seq<char>)>, key: Seq<char>) -> Option<Seq<char>> {
    if attr_index(s, key) >= 0 {
        Some(s[attr_index(s, key)].1)
    } else {
        None
    }
}

/// The pairs after an insert: an existing key keeps its place and takes the
/// new value; a new key goes last.
pub open spec fn attr_inserted(s: Seq<(Seq<char>, Seq<char>)>, key: Seq<char>, value: Seq<char>) -> Seq<(Seq<char>, Seq<char>)> {
    if attr_index(s, key) >= 0 {
        s.update(attr_index(s, key), (key, value))
    } else {
        s.push((key, value))
    }
}

/// `IndexMap::get`, cloned: the value stored under `key`.
#[verifier::external_body]
pub(crate) fn attr_get(m: &IndexMap<String, String>, key: &str) -> (r: Option<String>)
    ensures
        match r {
            Some(v) => attr_value(attr_entries(*m), key@) == Some(v@),
            None => attr_value(attr_entries(*m), key@) is None,
        },
{
    m.get(key).cloned()
}

/// `IndexMap::contains_key`.
#[verifier::external_body]
fn attr_contains(m: &IndexMap<String, String>, key: &str) -> (b: bool)
    ensures
        b == (attr_index(attr_entries(*m), key@) >= 0),
{
    m.contains_key(key)
}

/// `IndexMap::insert`: an existing key keeps its position and gets the new
/// value, a new key is appended.
#[verifier::external_body]
pub(crate) fn attr_insert(m: &mut IndexMap<String, String>, key: String, value: String)
    ensures
        attr_entries(*final(m)) == attr_inserted(attr_entries(*old(m)), key@, value@),
{
    m.insert(key, value);
}

// ---------------------------------------------------------------------------
// Sets of gids
// ---------------------------------------------------------------------------
/// A set of game ids.
pub struct GidSet {
    items: Vec<i64>,
}

impl View for GidSet {
    type V = Set<i64>;

    closed spec fn view(&self) -> Set<i64> {
        Set::new(|g: i64| self.items@.contains(g))
    }
}

impl GidSet {
    pub fn new() -> (s: Self)
        ensures
            s@ == Set::<i64>::empty(),
    {
        let s = GidSet { items: Vec::new() };
        assert(s@ =~= Set::<i64>::empty());
        s
    }

    pub fn contains(&self, gid: i64) -> (b: bool)
        ensures
            b == self@.contains(gid),
    {
        let mut i: usize = 0;
        while i < self.items.len()
            invariant
                i <= self.items@.len(),
                forall|k: int| 0 <= k < i ==> self.items@[k] != gid,
            decreases self.items@.len() - i,
        {
            if self.items[i] == gid {
                assert(self.items@.contains(gid));
                return true;
            }
            i = i + 1;
        }
        false
    }

    /// Adds `gid`; whether it was missing.
    pub fn insert(&mut self, gid: i64) -> (fresh: bool)
        ensures
            fresh == !old(self)@.contains(gid),
            final(self)@ == old(self)@.insert(gid),
    {
        if self.contains(gid) {
            assert(self@ =~= old(self)@.insert(gid));
            return false;
        }
        self.items.push(gid);
        assert forall|g: i64| self.items@.contains(g) <==> (old(self).items@.contains(g) || g == gid) by {
            if old(self).items@.contains(g) {
                let k = choose|k: int| 0 <= k < old(self).items@.len() && old(self).items@[k] == g;
                assert(self.items@[k] == g);
            }
            if self.items@.contains(g) && g != gid {
                let k = choose|k: int| 0 <= k < self.items@.len() && self.items@[k] == g;
                assert(old(self).items@[k] == g);
            }
            if g == gid {
                assert(self.items@[self.items@.len() - 1] == gid);
            }
        }
        assert(self@ =~= old(self)@.insert(gid));
        true
    }

    pub fn remove(&mut self, gid: i64)
        ensures
            final(self)@ == old(self)@.remove(gid),
    {
        let mut kept: Vec<i64> = Vec::new();
        let mut i: usize = 0;
        while i < self.items.len()
            invariant
                i <= self.items@.len(),
                self.items@ == old(self).items@,
                forall|g: i64| kept@.contains(g) <==> (g != gid && exists|k: int| 0 <= k < i && self.items@[k] == g),
            decreases self.items@.len() - i,
        {
            let x = self.items[i];
            if x != gid {
                let ghost before = kept@;
                kept.push(x);
                assert forall|g: i64| kept@.contains(g) <==> (g != gid && exists|k: int| 0 <= k < i + 1 && self.items@[k] == g) by {
                    if before.contains(g) {
                        let k = choose|k: int| 0 <= k < before.len() && before[k] == g;
                        assert(kept@[k] == g);
                    }
                    if kept@.contains(g) {
                        let k = choose|k: int| 0 <= k < kept@.len() && kept@[k] == g;
                        if k < before.len() {
                            assert(before[k] == g);
                        }
                    }
                    if g == x {
                        assert(kept@[kept@.len() - 1] == x);
                    }
                }
            } else {
                assert forall|g: i64| kept@.contains(g) <==> (g != gid && exists|k: int| 0 <= k < i + 1 && self.items@[k] == g) by {
                    if g != gid && exists|k: int| 0 <= k < i + 1 && self.items@[k] == g {
                        let k = choose|k: int| 0 <= k < i + 1 && self.items@[k] == g;
                        assert(k < i);
                    }
                }
            }
            i = i + 1;
        }
        self.items = kept;
        assert(self@ =~= old(self)@.remove(gid));
    }

    /// The members, in the order they were added.
    pub fn members(&self) -> (v: Vec<i64>)
        ensures
            forall|g: i64| v@.contains(g) <==> self@.contains(g),
    {
        let v = self.items.clone();
        assert(v@ =~= self.items@);
        v
    }
}

// ---------------------------------------------------------------------------
// Games and players
// ---------------------------------------------------------------------------
/// Blaze game state of a match.
#[derive(Debug, Clone, Copy, PartialEq, Eq, Structural)]
pub enum GamePhase {
    PreGame,
    InGame,
    PostGame,
    Resetable,
}

pub open spec fn gsta(p: GamePhase) -> i32 {
    match p {
        GamePhase::PreGame => 1,
        GamePhase::InGame => 2,
        GamePhase::PostGame => 4,
        GamePhase::Resetable => 7,
    }
}

pub open spec fn phase_label(p: GamePhase) -> Seq<char> {
    match p {
        GamePhase::PreGame => "Lobby"@,
        GamePhase::InGame => "InGame"@,
        GamePhase::PostGame => "PostGame"@,
        GamePhase::Resetable => "Resetable"@,
    }
}

impl GamePhase {
    /// The `GSTA` wire value.
    pub fn as_gsta(self) -> (v: i32)
        ensures
            v == gsta(self),
    {
        match self {
            GamePhase::PreGame => 1,
            GamePhase::InGame => 2,
            GamePhase::PostGame => 4,
            GamePhase::Resetable => 7,
        }
    }

    pub fn label(self) -> (s: &'static str)
        ensures
            s@ == phase_label(self),
    {
        match self {
            GamePhase::PreGame => "Lobby",
            GamePhase::InGame => "InGame",
            GamePhase::PostGame => "PostGame",
            GamePhase::Resetable => "Resetable",
        }
    }
}

/// One roster row.
#[derive(Debug)]
pub struct CncPlayer {
    pub persona_id: i64,
    pub display_name: String,
    pub slot: i32,
    pub team: i32,
    pub is_ai: bool,
    pub ready: bool,
    pub attribs: IndexMap<String, String>,
    pub custom_data: IndexMap<String, Vec<u8>>,
    pub stat: i32,
}

pub struct PlayerView {
    pub persona_id: i64,
    pub display_name: Seq<char>,
    pub slot: i32,
    pub team: i32,
    pub is_ai: bool,
    pub ready: bool,
    pub attribs: Seq<(Seq<char>, Seq<char>)>,
    pub custom_data: Seq<(Seq<char>, Seq<u8>)>,
    pub stat: i32,
}

impl View for CncPlayer {
    type V = PlayerView;

    open spec fn view(&self) -> PlayerView {
        PlayerView {
            persona_id: self.persona_id,
            display_name: self.display_name@,
            slot: self.slot,
            team: self.team,
            is_ai: self.is_ai,
            ready: self.ready,
            attribs: attr_entries(self.attribs),
            custom_data: blob_entries(self.custom_data),
            stat: self.stat,
        }
    }
}

pub open spec fn players_view(s: Seq<CncPlayer>) -> Seq<PlayerView> {
    s.map_values(|p: CncPlayer| p@)
}

/// One game row: a lobby, a standby pool row or a live match.
#[derive(Debug)]
pub struct CncGame {
    pub gid: i64,
    pub name: String,
    pub host_persona: i64,
    pub max_players: i32,
    pub players: Vec<CncPlayer>,
    pub uuid: String,
    pub phase: GamePhase,
    pub map_path: String,
    /// Start slots of the chosen map (0: inferred from the roster).
    pub start_count: i32,
    pub dedicated_session_id: Option<u64>,
    pub is_standby: bool,
    pub password: String,
    pub enable_special_abilities: bool,
    pub enable_tech_tree: bool,
    pub enable_oil_economy: bool,
    pub enable_infinite_resource_centers: bool,
    pub enable_unlock_full_faction_roster: bool,
    /// `ReplicatedGameData` bytes last sent for this game.
    pub replicated_wire: Option<Vec<u8>>,
    /// `PROS` roster rows last sent for this game.
    pub pros_wire: Option<Vec<Vec<u8>>>,
}

pub struct GameView {
    pub gid: i64,
    pub name: Seq<char>,
    pub host_persona: i64,
    pub max_players: i32,
    pub players: Seq<PlayerView>,
    pub uuid: Seq<char>,
    pub phase: GamePhase,
    pub map_path: Seq<char>,
    pub start_count: i32,
    pub dedicated_session_id: Option<u64>,
    pub is_standby: bool,
    pub password: Seq<char>,
    pub enable_special_abilities: bool,
    pub enable_tech_tree: bool,
    pub enable_oil_economy: bool,
    pub enable_infinite_resource_centers: bool,
    pub enable_unlock_full_faction_roster: bool,
    pub replicated_wire: Option<Seq<u8>>,
    pub pros_wire: Option<Seq<Seq<u8>>>,
}

pub open spec fn opt_bytes(v: Option<Vec<u8>>) -> Option<Seq<u8>> {
    match v {
        Some(b) => Some(b@),
        None => None,
    }
}

pub open spec fn opt_rows(v: Option<Vec<Vec<u8>>>) -> Option<Seq<Seq<u8>>> {
    match v {
        Some(b) => Some(b@.map_values(|r: Vec<u8>| r@)),
        None => None,
    }
}

impl View for CncGame {
    type V = GameView;

    open spec fn view(&self) -> GameView {
        GameView {
            gid: self.gid,
            name: self.name@,
            host_persona: self.host_persona,
            max_players: self.max_players,
            players: players_view(self.players@),
            uuid: self.uuid@,
            phase: self.phase,
            map_path: self.map_path@,
            start_count: self.start_count,
            dedicated_session_id: self.dedicated_session_id,
            is_standby: self.is_standby,
            password: self.password@,
            enable_special_abilities: self.enable_special_abilities,
            enable_tech_tree: self.enable_tech_tree,
            enable_oil_economy: self.enable_oil_economy,
            enable_infinite_resource_centers: self.enable_infinite_resource_centers,
            enable_unlock_full_faction_roster: self.enable_unlock_full_faction_roster,
            replicated_wire: opt_bytes(self.replicated_wire),
            pros_wire: opt_rows(self.pros_wire),
        }
    }
}

pub open spec fn games_view(s: Seq<CncGame>) -> Seq<GameView> {
    s.map_values(|g: CncGame| g@)
}

// ---------------------------------------------------------------------------
// Game UUIDs
// ---------------------------------------------------------------------------
/// Sixteen bytes from the thread RNG (`rand::Rng::fill`).
#[verifier::external_body]
fn random_bytes16() -> (b: [u8; 16]) {
    let mut b = [0u8; 16];
    rand::thread_rng().fill(&mut b);
    b
}

pub open spec fn hex_digit(n: u8) -> char {
    if n < 10 {
        (('0' as u8) + n) as char
    } else {
        (('a' as u8) + n - 10) as char
    }
}

pub open spec fn hex2(b: u8) -> Seq<char> {
    seq![hex_digit(b / 16), hex_digit(b % 16)]
}

pub open spec fn hex_run(b: Seq<u8>) -> Seq<char>
    decreases b.len(),
{
    if b.len() == 0 {
        Seq::empty()
    } else {
        hex_run(b.drop_last()) + hex2(b.last())
    }
}

/// Version-4 layout: version nibble 4 in byte 6, variant bits `10` in byte 8.
pub open spec fn uuid_v4_bytes(b: Seq<u8>) -> Seq<u8> {
    b.update(6, (b[6] & 0x0f) | 0x40).update(8, (b[8] & 0x3f) | 0x80)
}

/// Lower-case hex in 8-4-4-4-12 groups.
pub open spec fn uuid_text(b: Seq<u8>) -> Seq<char> {
    hex_run(b.subrange(0, 4)) + "-"@ + hex_run(b.subrange(4, 6)) + "-"@ + hex_run(b.subrange(6, 8))
        + "-"@ + hex_run(b.subrange(8, 10)) + "-"@ + hex_run(b.subrange(10, 16))
}

fn hex_digit_exec(n: u8) -> (c: char)
    requires
        n < 16,
    ensures
        c == hex_digit(n),
{
    if n < 10 {
        ((48u8) + n) as char
    } else {
        ((97u8) + n - 10) as char
    }
}

fn push_hex_run(out: &mut Vec<char>, b: &[u8], from: usize, to: usize)
    requires
        from <= to <= b@.len(),
    ensures
        final(out)@ == old(out)@ + hex_run(b@.subrange(from as int, to as int)),
{
    let mut i: usize = from;
    while i < to
        invariant
            from <= i <= to <= b@.len(),
            out@ == old(out)@ + hex_run(b@.subrange(from as int, i as int)),
        decreases to - i,
    {
        let x = b[i];
        out.push(hex_digit_exec(x / 16));
        out.push(hex_digit_exec(x % 16));
        let ghost t = b@.subrange(from as int, i + 1);
        assert(t.drop_last() =~= b@.subrange(from as int, i as int));
        assert(t.last() == x);
        assert(out@ =~= old(out)@ + hex_run(t));
        i = i + 1;
    }
}

/// The UUID text of 16 random bytes, with the version-4 bits set.
pub fn uuid_v4_string(bytes: [u8; 16]) -> (s: String)
    ensures
        s@ == uuid_text(uuid_v4_bytes(bytes@)),
{
    let mut b = bytes;
    b[6] = (b[6] & 0x0f) | 0x40;
    b[8] = (b[8] & 0x3f) | 0x80;
    assert(b@ =~= uuid_v4_bytes(bytes@));
    let mut o: Vec<char> = Vec::new();
    push_hex_run(&mut o, &b, 0, 4);
    push_str(&mut o, "-");
    push_hex_run(&mut o, &b, 4, 6);
    push_str(&mut o, "-");
    push_hex_run(&mut o, &b, 6, 8);
    push_str(&mut o, "-");
    push_hex_run(&mut o, &b, 8, 10);
    push_str(&mut o, "-");
    push_hex_run(&mut o, &b, 10, 16);
    chars_to_string(&o)
}

/// A fresh random version-4 UUID.
fn new_uuid_v4_string() -> (s: String)
    ensures
        exists|b: Seq<u8>| b.len() == 16 && s@ == uuid_text(uuid_v4_bytes(b)),
{
    let b = random_bytes16();
    let s = uuid_v4_string(b);
    assert(b@.len() == 16);
    s
}

// ---------------------------------------------------------------------------
// Registry
// ---------------------------------------------------------------------------
/// Games ordered by strictly increasing gid.
pub open spec fn sorted_gids(s: Seq<GameView>) -> bool {
    forall|i: int, j: int| 0 <= i < j < s.len() ==> #[trigger] s[i].gid < #[trigger] s[j].gid
}

pub open spec fn game_index(s: Seq<GameView>, gid: i64) -> int {
    if exists|i: int| 0 <= i < s.len() && s[i].gid == gid {
        choose|i: int| 0 <= i < s.len() && s[i].gid == gid
    } else {
        -1
    }
}

pub open spec fn game_of(s: Seq<GameView>, gid: i64) -> Option<GameView> {
    if game_index(s, gid) >= 0 {
        Some(s[game_index(s, gid)])
    } else {
        None
    }
}

pub proof fn lemma_game_index(s: Seq<GameView>, gid: i64, i: int)
    requires
        sorted_gids(s),
        0 <= i < s.len(),
        s[i].gid == gid,
    ensures
        game_index(s, gid) == i,
{
    let j = game_index(s, gid);
    assert(0 <= j < s.len() && s[j].gid == gid);
    if j < i {
        assert(s[j].gid < s[i].gid);
    }
    if i < j {
        assert(s[i].gid < s[j].gid);
    }
}

/// Non-AI players.
pub open spec fn human_count(s: Seq<PlayerView>) -> nat
    decreases s.len(),
{
    if s.len() == 0 {
        0
    } else {
        human_count(s.drop_last()) + if !s.last().is_ai {
            1nat
        } else {
            0nat
        }
    }
}

pub open spec fn has_player(s: Seq<PlayerView>, pid: i64) -> bool {
    exists|i: int| 0 <= i < s.len() && s[i].persona_id == pid
}

pub open spec fn has_human(s: Seq<PlayerView>, pid: i64) -> bool {
    exists|i: int| 0 <= i < s.len() && s[i].persona_id == pid && !s[i].is_ai
}

/// Every human is ready, the host counting as ready; at least one human.
pub open spec fn humans_ready(s: Seq<PlayerView>, host: i64) -> bool {
    human_count(s) > 0 && forall|i: int|
        0 <= i < s.len() && !(#[trigger] s[i]).is_ai ==> (s[i].ready || (host != 0 && s[i].persona_id
            == host))
}

/// Reset orchestration of one match gid.
pub struct GidOrchestration {
    pub gid: i64,
    pub client_session_id: u64,
    pub dedicated_session_id: Option<u64>,
    pub dedicated_host_ready: bool,
    pub join_pushes_released: bool,
    pub mesh_active_connected: bool,
    pub simucloud_match_ready: bool,
    pub pending_mesh_pid: Option<i64>,
    pub pending_game_ready_pid: Option<i64>,
    pub deferred_join_pushes: Option<Vec<OutgoingPush>>,
}

pub struct OrchView {
    pub gid: i64,
    pub client_session_id: u64,
    pub dedicated_session_id: Option<u64>,
    pub dedicated_host_ready: bool,
    pub join_pushes_released: bool,
    pub mesh_active_connected: bool,
    pub simucloud_match_ready: bool,
    pub pending_mesh_pid: Option<i64>,
    pub pending_game_ready_pid: Option<i64>,
    pub deferred_join_pushes: Option<Seq<PushView>>,
}

impl View for GidOrchestration {
    type V = OrchView;

    open spec fn view(&self) -> OrchView {
        OrchView {
            gid: self.gid,
            client_session_id: self.client_session_id,
            dedicated_session_id: self.dedicated_session_id,
            dedicated_host_ready: self.dedicated_host_ready,
            join_pushes_released: self.join_pushes_released,
            mesh_active_connected: self.mesh_active_connected,
            simucloud_match_ready: self.simucloud_match_ready,
            pending_mesh_pid: self.pending_mesh_pid,
            pending_game_ready_pid: self.pending_game_ready_pid,
            deferred_join_pushes: match self.deferred_join_pushes {
                Some(v) => Some(pushes_view(v@)),
                None => None,
            },
        }
    }
}

pub open spec fn orch_view(s: Seq<GidOrchestration>) -> Seq<OrchView> {
    s.map_values(|o: GidOrchestration| o@)
}

pub open spec fn unique_orch(s: Seq<OrchView>) -> bool {
    forall|i: int, j: int| 0 <= i < j < s.len() ==> #[trigger] s[i].gid != #[trigger] s[j].gid
}

pub open spec fn orch_index(s: Seq<OrchView>, gid: i64) -> int {
    if exists|i: int| 0 <= i < s.len() && s[i].gid == gid {
        choose|i: int| 0 <= i < s.len() && s[i].gid == gid
    } else {
        -1
    }
}

pub open spec fn orch_of(s: Seq<OrchView>, gid: i64) -> Option<OrchView> {
    if orch_index(s, gid) >= 0 {
        Some(s[orch_index(s, gid)])
    } else {
        None
    }
}

pub proof fn lemma_orch_index(s: Seq<OrchView>, gid: i64, i: int)
    requires
        unique_orch(s),
        0 <= i < s.len(),
        s[i].gid == gid,
    ensures
        orch_index(s, gid) == i,
{
    let j = orch_index(s, gid);
    assert(0 <= j < s.len() && s[j].gid == gid);
    if j != i {
        if j < i {
            assert(s[j].gid != s[i].gid);
        } else {
            assert(s[i].gid != s[j].gid);
        }
    }
}

/// A map the lobby picked for a gid.
pub struct PendingMap {
    pub gid: i64,
    pub path: String,
    pub start_count: i32,
}

pub open spec fn pending_map_view(s: Seq<PendingMap>) -> Seq<(i64, Seq<char>, i32)> {
    s.map_values(|m: PendingMap| (m.gid, m.path@, m.start_count))
}

/// The pending map of `gid`: the last one written.
pub open spec fn pending_map_of(s: Seq<(i64, Seq<char>, i32)>, gid: i64) -> Option<(Seq<char>, i32)>
    decreases s.len(),
{
    if s.len() == 0 {
        None
    } else if s.last().0 == gid {
        Some((s.last().1, s.last().2))
    } else {
        pending_map_of(s.drop_last(), gid)
    }
}

/// The registry as values.
pub struct RegistryView {
    pub games: Seq<GameView>,
    pub pregame: Set<i64>,
    pub join_setup: Set<i64>,
    pub ingame: Set<i64>,
    pub game_ready: Set<i64>,
    pub mesh_live: Set<i64>,
    pub orchestration: Seq<OrchView>,
    pub pending_maps: Seq<(i64, Seq<char>, i32)>,
    pub server_lost: Seq<(i64, u64)>,
    pub join_auth: Seq<(i64, i64, u64)>,
    pub next_browser_list_id: i64,
    pub last_snapshot: Option<(i64, Seq<i64>)>,
    pub lobby_attrs: Seq<LobbyAttrsView>,
    /// Personas whose match server was lost: (persona, gid, Blaze session).
    pub lost_personas: Seq<(i64, i64, u64)>,
    /// The last player-attribute write (gid, persona, pairs), kept for its echo.
    pub last_attr_change: Option<(i64, i64, Seq<(Seq<char>, Seq<char>)>)>,
    /// The last custom-data write (gid, persona, blobs), kept for its echo.
    pub last_custom_data_change: Option<(i64, i64, Seq<(Seq<char>, Seq<u8>)>)>,
}

/// Lobby attribute writes for one (gid, persona), kept so that later roster
/// rows pick them up.
pub struct LobbyAttrs {
    pub gid: i64,
    pub persona_id: i64,
    pub attrs: IndexMap<String, String>,
}

pub struct LobbyAttrsView {
    pub gid: i64,
    pub persona_id: i64,
    pub attrs: Seq<(Seq<char>, Seq<char>)>,
}

impl View for LobbyAttrs {
    type V = LobbyAttrsView;

    open spec fn view(&self) -> LobbyAttrsView {
        LobbyAttrsView { gid: self.gid, persona_id: self.persona_id, attrs: attr_entries(self.attrs) }
    }
}

pub open spec fn lobby_attrs_view(s: Seq<LobbyAttrs>) -> Seq<LobbyAttrsView> {
    s.map_values(|x: LobbyAttrs| x@)
}

/// Game rows, their push flags, orchestration and lobby state.
pub struct GameRegistry {
    games: Vec<CncGame>,
    pregame: GidSet,
    join_setup: GidSet,
    ingame: GidSet,
    game_ready: GidSet,
    mesh_live: GidSet,
    orchestration: Vec<GidOrchestration>,
    pending_maps: Vec<PendingMap>,
    server_lost: Vec<(i64, u64)>,
    join_auth: Vec<(i64, i64, u64)>,
    next_browser_list_id: i64,
    last_snapshot: Option<(i64, Vec<i64>)>,
    lobby_attrs: Vec<LobbyAttrs>,
    lost_personas: Vec<(i64, i64, u64)>,
    last_attr_change: Option<(i64, i64, IndexMap<String, String>)>,
    last_custom_data_change: Option<(i64, i64, IndexMap<String, Vec<u8>>)>,
}

impl View for GameRegistry {
    type V = RegistryView;

    closed spec fn view(&self) -> RegistryView {
        RegistryView {
            games: games_view(self.games@),
            pregame: self.pregame@,
            join_setup: self.join_setup@,
            ingame: self.ingame@,
            game_ready: self.game_ready@,
            mesh_live: self.mesh_live@,
            orchestration: orch_view(self.orchestration@),
            pending_maps: pending_map_view(self.pending_maps@),
            server_lost: self.server_lost@,
            join_auth: self.join_auth@,
            next_browser_list_id: self.next_browser_list_id,
            last_snapshot: match self.last_snapshot {
                Some(x) => Some((x.0, x.1@)),
                None => None,
            },
            lobby_attrs: lobby_attrs_view(self.lobby_attrs@),
            lost_personas: self.lost_personas@,
            last_attr_change: match self.last_attr_change {
                Some(x) => Some((x.0, x.1, attr_entries(x.2))),
                None => None,
            },
            last_custom_data_change: match self.last_custom_data_change {
                Some(x) => Some((x.0, x.1, blob_entries(x.2))),
                None => None,
            },
        }
    }
}

impl GameRegistry {
    #[verifier::type_invariant]
    spec fn inv(self) -> bool {
        &&& sorted_gids(games_view(self.games@))
        &&& unique_orch(orch_view(self.orchestration@))
    }

    pub fn new() -> (r: Self)
        ensures
            r@.games == Seq::<GameView>::empty(),
            r@.pregame == Set::<i64>::empty(),
            r@.join_setup == Set::<i64>::empty(),
            r@.ingame == Set::<i64>::empty(),
            r@.game_ready == Set::<i64>::empty(),
            r@.mesh_live == Set::<i64>::empty(),
            r@.orchestration == Seq::<OrchView>::empty(),
            r@.pending_maps == Seq::<(i64, Seq<char>, i32)>::empty(),
            r@.server_lost == Seq::<(i64, u64)>::empty(),
            r@.join_auth == Seq::<(i64, i64, u64)>::empty(),
            r@.next_browser_list_id == 1,
            r@.last_snapshot is None,
            r@.lobby_attrs == Seq::<LobbyAttrsView>::empty(),
            r@.lost_personas == Seq::<(i64, i64, u64)>::empty(),
            r@.last_attr_change is None,
            r@.last_custom_data_change is None,
    {
        let r = GameRegistry {
            games: Vec::new(),
            pregame: GidSet::new(),
            join_setup: GidSet::new(),
            ingame: GidSet::new(),
            game_ready: GidSet::new(),
            mesh_live: GidSet::new(),
            orchestration: Vec::new(),
            pending_maps: Vec::new(),
            server_lost: Vec::new(),
            join_auth: Vec::new(),
            next_browser_list_id: 1,
            last_snapshot: None,
            lobby_attrs: Vec::new(),
            lost_personas: Vec::new(),
            last_attr_change: None,
            last_custom_data_change: None,
        };
        assert(games_view(r.games@) =~= Seq::<GameView>::empty());
        assert(orch_view(r.orchestration@) =~= Seq::<OrchView>::empty());
        assert(pending_map_view(r.pending_maps@) =~= Seq::<(i64, Seq<char>, i32)>::empty());
        r
    }

    fn find_game(&self, gid: i64) -> (r: Option<usize>)
        ensures
            match r {
                Some(i) => i < self@.games.len() && game_index(self@.games, gid) == i,
                None => game_index(self@.games, gid) == -1,
            },
    {
        proof {
            use_type_invariant(self);
        }
        let ghost s = self@.games;
        let mut i: usize = 0;
        while i < self.games.len()
            invariant
                i <= self.games@.len(),
                s == games_view(self.games@),
                sorted_gids(s),
                forall|k: int| 0 <= k < i ==> s[k].gid != gid,
            decreases self.games@.len() - i,
        {
            if self.games[i].gid == gid {
                proof {
                    lemma_game_index(s, gid, i as int);
                }
                return Some(i);
            }
            i = i + 1;
        }
        None
    }

    fn find_orch(&self, gid: i64) -> (r: Option<usize>)
        ensures
            match r {
                Some(i) => i < self@.orchestration.len() && orch_index(self@.orchestration, gid) == i,
                None => orch_index(self@.orchestration, gid) == -1,
            },
    {
        proof {
            use_type_invariant(self);
        }
        let ghost s = self@.orchestration;
        let mut i: usize = 0;
        while i < self.orchestration.len()
            invariant
                i <= self.orchestration@.len(),
                s == orch_view(self.orchestration@),
                unique_orch(s),
                forall|k: int| 0 <= k < i ==> s[k].gid != gid,
            decreases self.orchestration@.len() - i,
        {
            if self.orchestration[i].gid == gid {
                proof {
                    lemma_orch_index(s, gid, i as int);
                }
                return Some(i);
            }
            i = i + 1;
        }
        None
    }

    // -- one-shot push flags ------------------------------------------------
    /// `true` the first time PRE_GAME is pushed for `gid`.
    pub fn try_mark_blaze_pregame_pushed(&mut self, gid: i64) -> (fresh: bool)
        ensures
            fresh == !old(self)@.pregame.contains(gid),
            final(self)@ == (RegistryView { pregame: old(self)@.pregame.insert(gid), ..old(self)@ }),
    {
        proof {
            use_type_invariant(&*self);
        }
        {
            let mut t = GidSet::new();
            std::mem::swap(&mut t, &mut self.pregame);
            let r = t.insert(gid);
            self.pregame = t;
            r
        }
    }

    pub fn blaze_pregame_already_pushed(&self, gid: i64) -> (b: bool)
        ensures
            b == self@.pregame.contains(gid),
    {
        self.pregame.contains(gid)
    }

    pub fn clear_blaze_join_setup_pushed(&mut self, gid: i64)
        ensures
            final(self)@ == (RegistryView { join_setup: old(self)@.join_setup.remove(gid), ..old(self)@ }),
    {
        proof {
            use_type_invariant(&*self);
        }
        let mut t = GidSet::new();
        std::mem::swap(&mut t, &mut self.join_setup);
        t.remove(gid);
        self.join_setup = t;
    }

    /// `true` the first time the join `NotifyGameSetup` is pushed for `gid`.
    pub fn try_mark_blaze_join_setup_pushed(&mut self, gid: i64) -> (fresh: bool)
        ensures
            fresh == !old(self)@.join_setup.contains(gid),
            final(self)@ == (RegistryView { join_setup: old(self)@.join_setup.insert(gid), ..old(self)@ }),
    {
        proof {
            use_type_invariant(&*self);
        }
        {
            let mut t = GidSet::new();
            std::mem::swap(&mut t, &mut self.join_setup);
            let r = t.insert(gid);
            self.join_setup = t;
            r
        }
    }

    pub fn blaze_join_setup_already_pushed(&self, gid: i64) -> (b: bool)
        ensures
            b == self@.join_setup.contains(gid),
    {
        self.join_setup.contains(gid)
    }

    /// `true` the first time IN_GAME is pushed for `gid`.
    pub fn try_mark_blaze_ingame_pushed(&mut self, gid: i64) -> (fresh: bool)
        ensures
            fresh == !old(self)@.ingame.contains(gid),
            final(self)@ == (RegistryView { ingame: old(self)@.ingame.insert(gid), ..old(self)@ }),
    {
        proof {
            use_type_invariant(&*self);
        }
        {
            let mut t = GidSet::new();
            std::mem::swap(&mut t, &mut self.ingame);
            let r = t.insert(gid);
            self.ingame = t;
            r
        }
    }

    pub fn blaze_ingame_already_pushed(&self, gid: i64) -> (b: bool)
        ensures
            b == self@.ingame.contains(gid),
    {
        self.ingame.contains(gid)
    }

    /// `true` the first time GameReady is pushed for `gid`.
    pub fn try_mark_game_ready_pushed(&mut self, gid: i64) -> (fresh: bool)
        ensures
            fresh == !old(self)@.game_ready.contains(gid),
            final(self)@ == (RegistryView { game_ready: old(self)@.game_ready.insert(gid), ..old(self)@ }),
    {
        proof {
            use_type_invariant(&*self);
        }
        {
            let mut t = GidSet::new();
            std::mem::swap(&mut t, &mut self.game_ready);
            let r = t.insert(gid);
            self.game_ready = t;
            r
        }
    }

    /// Whether the client reported its mesh for `gid`.
    pub fn client_mesh_already_connected(&self, gid: i64) -> (b: bool)
        ensures
            b == self@.mesh_live.contains(gid),
    {
        self.mesh_live.contains(gid)
    }

    pub fn note_client_mesh_connected(&mut self, gid: i64)
        ensures
            final(self)@ == (RegistryView { mesh_live: old(self)@.mesh_live.insert(gid), ..old(self)@ }),
    {
        proof {
            use_type_invariant(&*self);
        }
        let mut t = GidSet::new();
        std::mem::swap(&mut t, &mut self.mesh_live);
        let _ = t.insert(gid);
        self.mesh_live = t;
    }

    /// Clears the post-join one-shots (PRE_GAME, IN_GAME, GameReady); the join
    /// setup flag stays until a reset.
    pub fn clear_blaze_one_shot_flags(&mut self, gid: i64)
        ensures
            final(self)@ == (RegistryView {
                pregame: old(self)@.pregame.remove(gid),
                ingame: old(self)@.ingame.remove(gid),
                game_ready: old(self)@.game_ready.remove(gid),
                ..old(self)@
            }),
    {
        proof {
            use_type_invariant(&*self);
        }
        let mut t = GidSet::new();
        std::mem::swap(&mut t, &mut self.pregame);
        t.remove(gid);
        self.pregame = t;
        let mut t = GidSet::new();
        std::mem::swap(&mut t, &mut self.ingame);
        t.remove(gid);
        self.ingame = t;
        let mut t = GidSet::new();
        std::mem::swap(&mut t, &mut self.game_ready);
        t.remove(gid);
        self.game_ready = t;
    }

    /// Clears every push flag of `gid` and its mesh note.
    pub fn clear_blaze_join_and_push_flags(&mut self, gid: i64)
        ensures
            final(self)@ == (RegistryView {
                pregame: old(self)@.pregame.remove(gid),
                ingame: old(self)@.ingame.remove(gid),
                game_ready: old(self)@.game_ready.remove(gid),
                join_setup: old(self)@.join_setup.remove(gid),
                mesh_live: old(self)@.mesh_live.remove(gid),
                ..old(self)@
            }),
    {
        self.clear_blaze_one_shot_flags(gid);
        proof {
            use_type_invariant(&*self);
        }
        let mut t = GidSet::new();
        std::mem::swap(&mut t, &mut self.join_setup);
        t.remove(gid);
        self.join_setup = t;
        let mut t = GidSet::new();
        std::mem::swap(&mut t, &mut self.mesh_live);
        t.remove(gid);
        self.mesh_live = t;
    }

    /// Clears every push flag of `gid` and drops its orchestration.
    pub fn clear_blaze_push_flags(&mut self, gid: i64)
        ensures
            final(self)@ == (RegistryView {
                pregame: old(self)@.pregame.remove(gid),
                ingame: old(self)@.ingame.remove(gid),
                game_ready: old(self)@.game_ready.remove(gid),
                join_setup: old(self)@.join_setup.remove(gid),
                mesh_live: old(self)@.mesh_live.remove(gid),
                orchestration: drop_orch(old(self)@.orchestration, gid),
                ..old(self)@
            }),
    {
        self.clear_blaze_join_and_push_flags(gid);
        self.clear_orchestration(gid);
    }

    // -- orchestration ------------------------------------------------------
    pub fn clear_orchestration(&mut self, gid: i64)
        ensures
            final(self)@ == (RegistryView {
                orchestration: drop_orch(old(self)@.orchestration, gid),
                ..old(self)@
            }),
    {
        proof {
            use_type_invariant(&*self);
        }
        match self.find_orch(gid) {
            Some(i) => {
                let ghost before = self@.orchestration;
                let mut v: Vec<GidOrchestration> = Vec::new();
                std::mem::swap(&mut v, &mut self.orchestration);
                let _ = v.remove(i);
                assert(orch_view(v@) =~= before.remove(i as int));
                assert(unique_orch(orch_view(v@))) by {
                    let t = orch_view(v@);
                    assert forall|x: int, y: int| 0 <= x < y < t.len() implies #[trigger] t[x].gid
                        != #[trigger] t[y].gid by {
                        let xx = if x < i { x } else { x + 1 };
                        let yy = if y < i { y } else { y + 1 };
                        assert(before[xx].gid != before[yy].gid);
                    }
                }
                self.orchestration = v;
            },
            None => {},
        }
    }

    pub fn has_orchestration(&self, gid: i64) -> (b: bool)
        ensures
            b == (orch_of(self@.orchestration, gid) is Some),
    {
        self.find_orch(gid).is_some()
    }

    /// Whether client join pushes are held for `gid`.
    pub fn has_deferred_join_pushes(&self, gid: i64) -> (b: bool)
        ensures
            b == match orch_of(self@.orchestration, gid) {
                Some(o) => o.deferred_join_pushes is Some,
                None => false,
            },
    {
        match self.find_orch(gid) {
            Some(i) => self.orchestration[i].deferred_join_pushes.is_some(),
            None => false,
        }
    }

    /// Whether the dedicated host of `gid` finished its setup.
    pub fn is_dedicated_host_ready(&self, gid: i64) -> (b: bool)
        ensures
            b == match orch_of(self@.orchestration, gid) {
                Some(o) => o.dedicated_host_ready,
                None => false,
            },
    {
        match self.find_orch(gid) {
            Some(i) => self.orchestration[i].dedicated_host_ready,
            None => false,
        }
    }
}

/// The orchestrations without the one of `gid`.
pub open spec fn drop_orch(s: Seq<OrchView>, gid: i64) -> Seq<OrchView> {
    let i = orch_index(s, gid);
    if i >= 0 {
        s.remove(i)
    } else {
        s
    }
}

proof fn lemma_sorted_update(s: Seq<GameView>, i: int, g: GameView)
    requires
        sorted_gids(s),
        0 <= i < s.len(),
        g.gid == s[i].gid,
    ensures
        sorted_gids(s.update(i, g)),
{
    let t = s.update(i, g);
    assert forall|a: int, b: int| 0 <= a < b < t.len() implies #[trigger] t[a].gid < #[trigger] t[b].gid by {
        assert(s[a].gid < s[b].gid);
    }
}

pub open spec fn update_game(r: RegistryView, i: int, g: GameView) -> RegistryView {
    RegistryView { games: r.games.update(i, g), ..r }
}

impl GameRegistry {
    /// Takes game `i` out for a change that keeps its gid.
    fn take_game(&mut self, i: usize) -> (g: CncGame)
        requires
            i < old(self)@.games.len(),
        ensures
            g@ == old(self)@.games[i as int],
            final(self)@ == (RegistryView { games: old(self)@.games.remove(i as int), ..old(self)@ }),
    {
        proof {
            use_type_invariant(&*self);
        }
        let ghost before = self@.games;
        let mut v: Vec<CncGame> = Vec::new();
        std::mem::swap(&mut v, &mut self.games);
        let g = v.remove(i);
        assert(games_view(v@) =~= before.remove(i as int));
        assert(sorted_gids(games_view(v@))) by {
            let t = games_view(v@);
            assert forall|a: int, b: int| 0 <= a < b < t.len() implies #[trigger] t[a].gid
                < #[trigger] t[b].gid by {
                let aa = if a < i { a } else { a + 1 };
                let bb = if b < i { b } else { b + 1 };
                assert(before[aa].gid < before[bb].gid);
            }
        }
        self.games = v;
        g
    }

    /// Puts a game back at `i` where `before` had one with the same gid.
    fn put_game(&mut self, i: usize, g: CncGame, Ghost(before): Ghost<Seq<GameView>>)
        requires
            sorted_gids(before),
            i < before.len(),
            old(self)@.games == before.remove(i as int),
            g.gid == before[i as int].gid,
        ensures
            final(self)@ == (RegistryView { games: before.update(i as int, g@), ..old(self)@ }),
    {
        proof {
            use_type_invariant(&*self);
            lemma_sorted_update(before, i as int, g@);
        }
        let mut v: Vec<CncGame> = Vec::new();
        std::mem::swap(&mut v, &mut self.games);
        let ghost gv = g@;
        let ghost w = games_view(v@);
        assert(w.len() == v@.len());
        v.insert(i, g);
        assert(games_view(v@) =~= w.insert(i as int, gv));
        assert(w.insert(i as int, gv) =~= before.update(i as int, gv));
        self.games = v;
    }

    /// Phase of `gid`; a missing game reads as resetable.
    pub fn get_phase(&self, gid: i64) -> (p: GamePhase)
        ensures
            p == match game_of(self@.games, gid) {
                Some(g) => g.phase,
                None => GamePhase::Resetable,
            },
    {
        match self.find_game(gid) {
            Some(i) => self.games[i].phase,
            None => GamePhase::Resetable,
        }
    }

    pub fn set_phase(&mut self, gid: i64, phase: GamePhase)
        ensures
            final(self)@ == match game_of(old(self)@.games, gid) {
                Some(g) => update_game(old(self)@, game_index(old(self)@.games, gid), GameView { phase, ..g }),
                None => old(self)@,
            },
    {
        proof {
            use_type_invariant(&*self);
        }
        match self.find_game(gid) {
            Some(i) => {
                let ghost before = self@.games;
                let mut g = self.take_game(i);
                g.phase = phase;
                self.put_game(i, g, Ghost(before));
            },
            None => {},
        }
    }

    pub fn is_standby_game(&self, gid: i64) -> (b: bool)
        ensures
            b == match game_of(self@.games, gid) {
                Some(g) => g.is_standby,
                None => false,
            },
    {
        match self.find_game(gid) {
            Some(i) => self.games[i].is_standby,
            None => false,
        }
    }

    /// The dedicated session that serves `gid`.
    pub fn dedicated_session_id_for_gid(&self, gid: i64) -> (r: Option<u64>)
        ensures
            r == match game_of(self@.games, gid) {
                Some(g) => g.dedicated_session_id,
                None => None::<u64>,
            },
    {
        match self.find_game(gid) {
            Some(i) => self.games[i].dedicated_session_id,
            None => None,
        }
    }

    pub fn dedicated_session_for_gid(&self, gid: i64) -> (r: Option<u64>)
        ensures
            r == match game_of(self@.games, gid) {
                Some(g) => g.dedicated_session_id,
                None => None::<u64>,
            },
    {
        self.dedicated_session_id_for_gid(gid)
    }

    pub fn is_password_protected(&self, gid: i64) -> (b: bool)
        ensures
            b == match game_of(self@.games, gid) {
                Some(g) => g.password.len() > 0,
                None => false,
            },
    {
        match self.find_game(gid) {
            Some(i) => str_chars(self.games[i].password.as_str()).len() > 0,
            None => false,
        }
    }

    /// Special abilities, tech tree, oil economy, infinite resource centers and
    /// full faction roster of `gid` (defaults: on, on, off, off, off).
    pub fn match_options(&self, gid: i64) -> (r: (bool, bool, bool, bool, bool))
        ensures
            r == match game_of(self@.games, gid) {
                Some(g) => (
                    g.enable_special_abilities,
                    g.enable_tech_tree,
                    g.enable_oil_economy,
                    g.enable_infinite_resource_centers,
                    g.enable_unlock_full_faction_roster,
                ),
                None => (true, true, false, false, false),
            },
    {
        match self.find_game(gid) {
            Some(i) => {
                let g = &self.games[i];
                (
                    g.enable_special_abilities,
                    g.enable_tech_tree,
                    g.enable_oil_economy,
                    g.enable_infinite_resource_centers,
                    g.enable_unlock_full_faction_roster,
                )
            },
            None => (true, true, false, false, false),
        }
    }

    /// A live (non-standby) game exists for `gid`.
    pub fn client_local_game_active(&self, gid: i64) -> (b: bool)
        ensures
            b == match game_of(self@.games, gid) {
                Some(g) => !g.is_standby,
                None => false,
            },
    {
        match self.find_game(gid) {
            Some(i) => !self.games[i].is_standby,
            None => false,
        }
    }

    pub fn is_player_in_game(&self, gid: i64, persona_id: i64) -> (b: bool)
        ensures
            b == match game_of(self@.games, gid) {
                Some(g) => has_player(g.players, persona_id),
                None => false,
            },
    {
        match self.find_game(gid) {
            Some(i) => {
                let g = &self.games[i];
                let ghost ps = players_view(g.players@);
                assert(self@.games[i as int].players == ps);
                let mut k: usize = 0;
                while k < g.players.len()
                    invariant
                        k <= g.players@.len(),
                        ps == players_view(g.players@),
                        i < self@.games.len(),
                        game_index(self@.games, gid) == i,
                        self@.games[i as int].players == ps,
                        forall|j: int| 0 <= j < k ==> ps[j].persona_id != persona_id,
                    decreases g.players@.len() - k,
                {
                    if g.players[k].persona_id == persona_id {
                        assert(ps[k as int].persona_id == persona_id);
                        assert(has_player(ps, persona_id));
                        return true;
                    }
                    k = k + 1;
                }
                false
            },
            None => false,
        }
    }

    /// Roster size of `gid` (1 when there is no game).
    pub fn player_count(&self, gid: i64) -> (n: i32)
        ensures
            n == match game_of(self@.games, gid) {
                Some(g) => g.players.len() as i32,
                None => 1,
            },
    {
        match self.find_game(gid) {
            Some(i) => self.games[i].players.len() as i32,
            None => 1,
        }
    }

    pub fn human_player_count(&self, gid: i64) -> (n: usize)
        ensures
            n == match game_of(self@.games, gid) {
                Some(g) => human_count(g.players),
                None => 0,
            },
    {
        match self.find_game(gid) {
            Some(i) => count_humans(&self.games[i].players),
            None => 0,
        }
    }

    /// Name of `gid` (`Skirmish` when there is no game).
    pub fn game_name(&self, gid: i64) -> (s: String)
        ensures
            s@ == match game_of(self@.games, gid) {
                Some(g) => g.name,
                None => "Skirmish"@,
            },
    {
        match self.find_game(gid) {
            Some(i) => self.games[i].name.clone(),
            None => chars_to_string(&str_chars("Skirmish")),
        }
    }

    /// Host persona of `gid`; `default_host` (the local user) without a game.
    pub fn host_persona_for_gid(&self, gid: i64, default_host: i64) -> (h: i64)
        ensures
            h == match game_of(self@.games, gid) {
                Some(g) => g.host_persona,
                None => default_host,
            },
    {
        match self.find_game(gid) {
            Some(i) => self.games[i].host_persona,
            None => default_host,
        }
    }

    /// Every human of `gid` is ready (the host counts as ready).
    pub fn all_humans_ready(&self, gid: i64) -> (b: bool)
        ensures
            b == match game_of(self@.games, gid) {
                Some(g) => humans_ready(g.players, g.host_persona),
                None => false,
            },
    {
        match self.find_game(gid) {
            Some(i) => {
                let g = &self.games[i];
                let host = g.host_persona;
                let n = count_humans(&g.players);
                let ghost ps = players_view(g.players@);
                assert(self@.games[i as int].players == ps);
                assert(self@.games[i as int].host_persona == host);
                let mut k: usize = 0;
                while k < g.players.len()
                    invariant
                        k <= g.players@.len(),
                        ps == players_view(g.players@),
                        i < self@.games.len(),
                        game_index(self@.games, gid) == i,
                        self@.games[i as int].players == ps,
                        self@.games[i as int].host_persona == host,
                        forall|j: int|
                            0 <= j < k && !(#[trigger] ps[j]).is_ai ==> (ps[j].ready || (host != 0
                                && ps[j].persona_id == host)),
                    decreases g.players@.len() - k,
                {
                    let p = &g.players[k];
                    assert(ps[k as int] == p@);
                    if !p.is_ai && !(p.ready || (host != 0 && p.persona_id == host)) {
                        assert(!(ps[k as int].ready || (host != 0 && ps[k as int].persona_id == host)));
                        assert(!ps[k as int].is_ai);
                        assert(!humans_ready(ps, host));
                        return false;
                    }
                    k = k + 1;
                }
                n > 0
            },
            None => false,
        }
    }

    pub fn replicated_wire_fields(&self, gid: i64) -> (r: Option<Vec<u8>>)
        ensures
            opt_bytes(r) == match game_of(self@.games, gid) {
                Some(g) => g.replicated_wire,
                None => None::<Seq<u8>>,
            },
    {
        match self.find_game(gid) {
            Some(i) => match &self.games[i].replicated_wire {
                Some(b) => Some(b.clone()),
                None => None,
            },
            None => None,
        }
    }

    pub fn set_replicated_wire_fields(&mut self, gid: i64, fields: Vec<u8>)
        ensures
            final(self)@ == match game_of(old(self)@.games, gid) {
                Some(g) => update_game(
                    old(self)@,
                    game_index(old(self)@.games, gid),
                    GameView { replicated_wire: Some(fields@), ..g },
                ),
                None => old(self)@,
            },
    {
        proof {
            use_type_invariant(&*self);
        }
        match self.find_game(gid) {
            Some(i) => {
                let ghost before = self@.games;
                let mut g = self.take_game(i);
                g.replicated_wire = Some(fields);
                self.put_game(i, g, Ghost(before));
            },
            None => {},
        }
    }

    pub fn set_pros_wire_fields(&mut self, gid: i64, entries: Vec<Vec<u8>>)
        ensures
            final(self)@ == match game_of(old(self)@.games, gid) {
                Some(g) => update_game(
                    old(self)@,
                    game_index(old(self)@.games, gid),
                    GameView { pros_wire: opt_rows(Some(entries)), ..g },
                ),
                None => old(self)@,
            },
    {
        proof {
            use_type_invariant(&*self);
        }
        match self.find_game(gid) {
            Some(i) => {
                let ghost before = self@.games;
                let mut g = self.take_game(i);
                g.pros_wire = Some(entries);
                self.put_game(i, g, Ghost(before));
            },
            None => {},
        }
    }

    pub fn pros_wire_fields(&self, gid: i64) -> (r: Option<Vec<Vec<u8>>>)
        ensures
            opt_rows(r) == match game_of(self@.games, gid) {
                Some(g) => g.pros_wire,
                None => None::<Seq<Seq<u8>>>,
            },
    {
        match self.find_game(gid) {
            Some(i) => match &self.games[i].pros_wire {
                Some(rows) => {
                    let mut out: Vec<Vec<u8>> = Vec::new();
                    let mut k: usize = 0;
                    while k < rows.len()
                        invariant
                            k <= rows@.len(),
                            out@.len() == k,
                            forall|j: int| 0 <= j < k ==> (#[trigger] out@[j])@ == rows@[j]@,
                        decreases rows@.len() - k,
                    {
                        out.push(clone_bytes(&rows[k]));
                        k = k + 1;
                    }
                    assert(out@.map_values(|r: Vec<u8>| r@) =~= rows@.map_values(|r: Vec<u8>| r@));
                    Some(out)
                },
                None => None,
            },
            None => None,
        }
    }

    /// Sets the ready flag of human `persona_id` in `gid`; whether it was done.
    pub fn set_player_ready(&mut self, gid: i64, persona_id: i64, ready: bool) -> (done: bool)
        ensures
            ready_set(old(self)@, final(self)@, gid, persona_id, ready, done),
    {
        proof {
            use_type_invariant(&*self);
        }
        let i = match self.find_game(gid) {
            Some(i) => i,
            None => return false,
        };
        let k = match first_player_exec(&self.games[i].players, persona_id) {
            Some(k) => k,
            None => return false,
        };
        if self.games[i].players[k].is_ai {
            return false;
        }
        let ghost before = self@.games;
        let mut g = self.take_game(i);
        let ghost ps = players_view(g.players@);
        let mut players: Vec<CncPlayer> = Vec::new();
        std::mem::swap(&mut players, &mut g.players);
        let mut p = players.remove(k);
        p.ready = ready;
        let ghost pv = p@;
        players.insert(k, p);
        assert(players_view(players@) =~= ps.update(k as int, pv));
        g.players = players;
        self.put_game(i, g, Ghost(before));
        true
    }

    /// Live gids where `persona_id` plays as a human, by increasing gid.
    pub fn gids_for_human_persona(&self, persona_id: i64) -> (v: Vec<i64>)
        ensures
            persona_id <= 0 ==> v@.len() == 0,
            persona_id > 0 ==> v@ == human_gids(self@.games, persona_id),
    {
        let mut v: Vec<i64> = Vec::new();
        if persona_id <= 0 {
            return v;
        }
        let ghost s = self@.games;
        let mut i: usize = 0;
        while i < self.games.len()
            invariant
                i <= self.games@.len(),
                s == games_view(self.games@),
                v@ == human_gids(s.subrange(0, i as int), persona_id),
            decreases self.games@.len() - i,
        {
            assert(s.subrange(0, i + 1).drop_last() =~= s.subrange(0, i as int));
            let g = &self.games[i];
            assert(s[i as int] == g@);
            if has_human_exec(&g.players, persona_id) {
                v.push(g.gid);
            }
            i = i + 1;
        }
        assert(s.subrange(0, i as int) =~= s);
        v
    }
}

/// The gids of the games where `pid` plays as a human, in order.
pub open spec fn human_gids(s: Seq<GameView>, pid: i64) -> Seq<i64>
    decreases s.len(),
{
    if s.len() == 0 {
        Seq::empty()
    } else {
        let r = human_gids(s.drop_last(), pid);
        if has_human(s.last().players, pid) {
            r.push(s.last().gid)
        } else {
            r
        }
    }
}

/// Index of the first player with persona `pid`, or -1.
pub open spec fn first_player(s: Seq<PlayerView>, pid: i64) -> int
    decreases s.len(),
{
    if s.len() == 0 {
        -1
    } else if s[0].persona_id == pid {
        0
    } else {
        let r = first_player(s.drop_first(), pid);
        if r < 0 {
            -1
        } else {
            r + 1
        }
    }
}

proof fn lemma_first_player(s: Seq<PlayerView>, pid: i64, i: int)
    requires
        0 <= i <= s.len(),
        forall|k: int| 0 <= k < i ==> (#[trigger] s[k]).persona_id != pid,
    ensures
        i < s.len() && s[i].persona_id == pid ==> first_player(s, pid) == i,
        i == s.len() ==> first_player(s, pid) == -1,
    decreases i,
{
    if i > 0 {
        assert forall|k: int| 0 <= k < i - 1 implies (#[trigger] s.drop_first()[k]).persona_id != pid by {
            assert(s.drop_first()[k] == s[k + 1]);
        }
        lemma_first_player(s.drop_first(), pid, i - 1);
    }
}

fn first_player_exec(players: &Vec<CncPlayer>, pid: i64) -> (r: Option<usize>)
    ensures
        match r {
            Some(k) => k < players@.len() && first_player(players_view(players@), pid) == k,
            None => first_player(players_view(players@), pid) == -1,
        },
{
    let ghost ps = players_view(players@);
    let mut k: usize = 0;
    while k < players.len()
        invariant
            k <= players@.len(),
            ps == players_view(players@),
            forall|j: int| 0 <= j < k ==> (#[trigger] ps[j]).persona_id != pid,
        decreases players@.len() - k,
    {
        assert(ps[k as int].persona_id == players@[k as int].persona_id);
        if players[k].persona_id == pid {
            proof {
                lemma_first_player(ps, pid, k as int);
            }
            return Some(k);
        }
        k = k + 1;
    }
    proof {
        lemma_first_player(ps, pid, k as int);
    }
    None
}

fn clone_bytes(v: &Vec<u8>) -> (r: Vec<u8>)
    ensures
        r@ == v@,
{
    let mut r: Vec<u8> = Vec::new();
    let mut i: usize = 0;
    while i < v.len()
        invariant
            i <= v@.len(),
            r@ == v@.subrange(0, i as int),
        decreases v@.len() - i,
    {
        r.push(v[i]);
        assert(v@.subrange(0, i + 1) =~= v@.subrange(0, i as int).push(v@[i as int]));
        i = i + 1;
    }
    assert(v@.subrange(0, i as int) =~= v@);
    r
}

pub(crate) fn count_humans(players: &Vec<CncPlayer>) -> (n: usize)
    ensures
        n == human_count(players_view(players@)),
{
    let ghost ps = players_view(players@);
    let mut n: usize = 0;
    let mut k: usize = 0;
    while k < players.len()
        invariant
            k <= players@.len(),
            ps == players_view(players@),
            n == human_count(ps.subrange(0, k as int)),
            n <= k,
        decreases players@.len() - k,
    {
        assert(ps.subrange(0, k + 1).drop_last() =~= ps.subrange(0, k as int));
        assert(ps[k as int].is_ai == players@[k as int].is_ai);
        if !players[k].is_ai {
            n = n + 1;
        }
        k = k + 1;
    }
    assert(ps.subrange(0, k as int) =~= ps);
    n
}

fn has_human_exec(players: &Vec<CncPlayer>, pid: i64) -> (b: bool)
    ensures
        b == has_human(players_view(players@), pid),
{
    let ghost ps = players_view(players@);
    let mut k: usize = 0;
    while k < players.len()
        invariant
            k <= players@.len(),
            ps == players_view(players@),
            forall|j: int| 0 <= j < k ==> !((#[trigger] ps[j]).persona_id == pid && !ps[j].is_ai),
        decreases players@.len() - k,
    {
        assert(ps[k as int] == players@[k as int]@);
        if players[k].persona_id == pid && !players[k].is_ai {
            return true;
        }
        k = k + 1;
    }
    false
}

/// Games with a gid below `gid`: where a game for `gid` goes.
pub open spec fn games_below(s: Seq<GameView>, gid: i64) -> nat
    decreases s.len(),
{
    if s.len() == 0 {
        0
    } else {
        games_below(s.drop_last(), gid) + if s.last().gid < gid {
            1nat
        } else {
            0nat
        }
    }
}

proof fn lemma_games_below(s: Seq<GameView>, gid: i64)
    requires
        sorted_gids(s),
        forall|i: int| 0 <= i < s.len() ==> (#[trigger] s[i]).gid != gid,
    ensures
        games_below(s, gid) <= s.len(),
        forall|i: int| 0 <= i < games_below(s, gid) ==> (#[trigger] s[i]).gid < gid,
        forall|i: int| games_below(s, gid) <= i < s.len() ==> (#[trigger] s[i]).gid > gid,
    decreases s.len(),
{
    if s.len() > 0 {
        let t = s.drop_last();
        assert(sorted_gids(t)) by {
            assert forall|a: int, b: int| 0 <= a < b < t.len() implies #[trigger] t[a].gid
                < #[trigger] t[b].gid by {
                assert(s[a].gid < s[b].gid);
            }
        }
        lemma_games_below(t, gid);
        let c = games_below(t, gid);
        assert forall|i: int| 0 <= i < t.len() implies s[i] == #[trigger] t[i] by {}
        if s.last().gid < gid {
            if c < t.len() {
                assert(t[c as int].gid > gid);
                assert(s[c as int].gid < s[s.len() - 1].gid);
            }
            assert(c == t.len());
            assert forall|i: int| 0 <= i < games_below(s, gid) implies (#[trigger] s[i]).gid < gid by {
                if i < t.len() {
                    assert(t[i].gid < gid);
                }
            }
        } else {
            assert forall|i: int| 0 <= i < games_below(s, gid) implies (#[trigger] s[i]).gid < gid by {
                assert(t[i].gid < gid);
            }
            assert forall|i: int| games_below(s, gid) <= i < s.len() implies (#[trigger] s[i]).gid > gid by {
                if i < t.len() {
                    assert(t[i].gid > gid);
                }
            }
        }
    }
}

/// `s` with `g` placed by its gid.
pub open spec fn games_inserted(s: Seq<GameView>, g: GameView) -> Seq<GameView> {
    s.insert(games_below(s, g.gid) as int, g)
}

/// A standby pool row as first created for dedicated `sid`.
pub open spec fn standby_game(gid: i64, name: Seq<char>, sid: u64, uuid: Seq<char>) -> GameView {
    GameView {
        gid,
        name,
        host_persona: 0,
        max_players: 8,
        players: Seq::empty(),
        uuid,
        phase: GamePhase::PreGame,
        map_path: Seq::empty(),
        start_count: 0,
        dedicated_session_id: Some(sid),
        is_standby: true,
        password: Seq::empty(),
        enable_special_abilities: true,
        enable_tech_tree: true,
        enable_oil_economy: false,
        enable_infinite_resource_centers: false,
        enable_unlock_full_faction_roster: false,
        replicated_wire: None,
        pros_wire: None,
    }
}

/// A standby row after its match: empty, back in the lobby with default
/// options, renamed when a name is given.
pub open spec fn standby_reset(g: GameView, restore_name: Option<Seq<char>>) -> GameView {
    GameView {
        players: Seq::empty(),
        host_persona: 0,
        phase: GamePhase::PreGame,
        map_path: Seq::empty(),
        start_count: 0,
        password: Seq::empty(),
        enable_special_abilities: true,
        enable_tech_tree: true,
        enable_oil_economy: false,
        enable_infinite_resource_centers: false,
        enable_unlock_full_faction_roster: false,
        replicated_wire: None,
        pros_wire: None,
        name: match restore_name {
            Some(n) => n,
            None => g.name,
        },
        ..g
    }
}

/// Join authorisations of games other than `gid`.
pub open spec fn drop_auth(s: Seq<(i64, i64, u64)>, gid: i64) -> Seq<(i64, i64, u64)>
    decreases s.len(),
{
    if s.len() == 0 {
        s
    } else {
        let r = drop_auth(s.drop_last(), gid);
        if s.last().0 != gid {
            r.push(s.last())
        } else {
            r
        }
    }
}

/// Every flag of `gid` cleared and its orchestration dropped.
pub open spec fn flags_cleared(r: RegistryView, gid: i64) -> RegistryView {
    RegistryView {
        pregame: r.pregame.remove(gid),
        ingame: r.ingame.remove(gid),
        game_ready: r.game_ready.remove(gid),
        join_setup: r.join_setup.remove(gid),
        mesh_live: r.mesh_live.remove(gid),
        orchestration: drop_orch(r.orchestration, gid),
        ..r
    }
}

/// Pending maps of games other than `gid`.
pub open spec fn drop_pending_map(s: Seq<(i64, Seq<char>, i32)>, gid: i64) -> Seq<(i64, Seq<char>, i32)>
    decreases s.len(),
{
    if s.len() == 0 {
        s
    } else {
        let r = drop_pending_map(s.drop_last(), gid);
        if s.last().0 != gid {
            r.push(s.last())
        } else {
            r
        }
    }
}

pub open spec fn drop_game(s: Seq<GameView>, gid: i64) -> Seq<GameView> {
    let i = game_index(s, gid);
    if i >= 0 {
        s.remove(i)
    } else {
        s
    }
}

/// The registry after `destroy_game(gid)`.
pub open spec fn destroyed(r: RegistryView, gid: i64) -> RegistryView {
    let f = flags_cleared(r, gid);
    RegistryView {
        games: drop_game(r.games, gid),
        pending_maps: drop_pending_map(r.pending_maps, gid),
        ..f
    }
}

/// What `ensure_standby_game` leaves (`before` to `after`).
pub open spec fn standby_ensured(before: RegistryView, after: RegistryView, gid: i64, hostname: Seq<char>, dedicated_session_id: u64) -> bool {
    match game_of(before.games, gid) {
        Some(g) => after == update_game(
            before,
            game_index(before.games, gid),
            GameView {
                name: hostname,
                dedicated_session_id: Some(dedicated_session_id),
                is_standby: true,
                phase: GamePhase::PreGame,
                ..g
            },
        ),
        None => exists|u: Seq<char>|
            #![trigger standby_game(gid, hostname, dedicated_session_id, u)]
            after == (RegistryView {
                games: games_inserted(
                    before.games,
                    standby_game(gid, hostname, dedicated_session_id, u),
                ),
                ..before
            }),
    }
}

/// A standby row of `gid` after its dedicated came back to the pool (see
/// `reset_standby_after_pool_return`).
pub open spec fn standby_reset_view(r: RegistryView, gid: i64, restore: Option<Seq<char>>) -> RegistryView {
    match game_of(r.games, gid) {
        Some(g) => if g.is_standby {
            let r1 = update_game(
                r,
                game_index(r.games, gid),
                standby_reset(g, restore),
            );
            let r2 = flags_cleared(r1, gid);
            RegistryView { join_auth: drop_auth(r2.join_auth, gid), ..r2 }
        } else {
            r
        },
        None => r,
    }
}

impl GameRegistry {
    fn games_below_exec(&self, gid: i64) -> (n: usize)
        ensures
            n == games_below(self@.games, gid),
    {
        let ghost s = self@.games;
        let mut n: usize = 0;
        let mut i: usize = 0;
        while i < self.games.len()
            invariant
                i <= self.games@.len(),
                s == games_view(self.games@),
                n == games_below(s.subrange(0, i as int), gid),
                n <= i,
            decreases self.games@.len() - i,
        {
            assert(s.subrange(0, i + 1).drop_last() =~= s.subrange(0, i as int));
            if self.games[i].gid < gid {
                n = n + 1;
            }
            i = i + 1;
        }
        assert(s.subrange(0, i as int) =~= s);
        n
    }

    fn insert_game(&mut self, g: CncGame)
        requires
            game_index(old(self)@.games, g.gid) == -1,
        ensures
            final(self)@ == (RegistryView { games: games_inserted(old(self)@.games, g@), ..old(self)@ }),
    {
        proof {
            use_type_invariant(&*self);
        }
        let ghost before = self@.games;
        let c = self.games_below_exec(g.gid);
        proof {
            assert forall|i: int| 0 <= i < before.len() implies (#[trigger] before[i]).gid != g.gid by {
                if before[i].gid == g.gid {
                    assert(exists|k: int| 0 <= k < before.len() && before[k].gid == g.gid);
                }
            }
            lemma_games_below(before, g.gid);
        }
        let mut v: Vec<CncGame> = Vec::new();
        std::mem::swap(&mut v, &mut self.games);
        let ghost gv = g@;
        let ghost w = games_view(v@);
        assert(w.len() == v@.len());
        v.insert(c, g);
        assert(games_view(v@) =~= before.insert(c as int, gv));
        assert(sorted_gids(games_view(v@))) by {
            let t = games_view(v@);
            assert forall|a: int, b: int| 0 <= a < b < t.len() implies #[trigger] t[a].gid
                < #[trigger] t[b].gid by {
                if b < c {
                    assert(before[a].gid < before[b].gid);
                } else if b == c {
                } else if a < c {
                    assert(t[b] == before[b - 1]);
                } else if a == c {
                    assert(t[b] == before[b - 1]);
                } else {
                    assert(before[a - 1].gid < before[b - 1].gid);
                }
            }
        }
        self.games = v;
    }

    /// The standby pool row `gid` of dedicated `dedicated_session_id`, named
    /// `hostname`: created if missing, else renamed, rebound and back in the lobby.
    pub fn ensure_standby_game(&mut self, gid: i64, hostname: &str, dedicated_session_id: u64)
        ensures
            standby_ensured(old(self)@, final(self)@, gid, hostname@, dedicated_session_id),
    {
        proof {
            use_type_invariant(&*self);
        }
        match self.find_game(gid) {
            Some(i) => {
                let ghost before = self@.games;
                let mut g = self.take_game(i);
                g.name = chars_to_string(&str_chars(hostname));
                g.dedicated_session_id = Some(dedicated_session_id);
                g.is_standby = true;
                g.phase = GamePhase::PreGame;
                self.put_game(i, g, Ghost(before));
            },
            None => {
                let uuid = new_uuid_v4_string();
                let g = CncGame {
                    gid,
                    name: chars_to_string(&str_chars(hostname)),
                    host_persona: 0,
                    max_players: 8,
                    players: Vec::new(),
                    uuid,
                    phase: GamePhase::PreGame,
                    map_path: String::new(),
                    start_count: 0,
                    dedicated_session_id: Some(dedicated_session_id),
                    is_standby: true,
                    password: String::new(),
                    enable_special_abilities: true,
                    enable_tech_tree: true,
                    enable_oil_economy: false,
                    enable_infinite_resource_centers: false,
                    enable_unlock_full_faction_roster: false,
                    replicated_wire: None,
                    pros_wire: None,
                };
                let ghost u = g.uuid@;
                assert(players_view(g.players@) =~= Seq::<PlayerView>::empty());
                assert(g@ =~= standby_game(gid, hostname@, dedicated_session_id, u));
                self.insert_game(g);
            },
        }
    }

    fn clear_join_auth_for_gid(&mut self, gid: i64)
        ensures
            final(self)@ == (RegistryView { join_auth: drop_auth(old(self)@.join_auth, gid), ..old(self)@ }),
    {
        proof {
            use_type_invariant(&*self);
        }
        let ghost s = self.join_auth@;
        let mut kept: Vec<(i64, i64, u64)> = Vec::new();
        let mut i: usize = 0;
        while i < self.join_auth.len()
            invariant
                i <= self.join_auth@.len(),
                s == self.join_auth@,
                kept@ == drop_auth(s.subrange(0, i as int), gid),
            decreases self.join_auth@.len() - i,
        {
            assert(s.subrange(0, i + 1).drop_last() =~= s.subrange(0, i as int));
            let a = self.join_auth[i];
            if a.0 != gid {
                kept.push(a);
            }
            i = i + 1;
        }
        assert(s.subrange(0, i as int) =~= s);
        self.join_auth = kept;
    }

    /// Returns a standby row to its empty lobby state (renamed when a name is
    /// given), clearing its flags, orchestration and join authorisations.
    pub fn reset_standby_after_pool_return(&mut self, gid: i64, restore_name: Option<String>)
        ensures
            final(self)@ == standby_reset_view(old(self)@, gid, opt_string_view(restore_name)),
    {
        proof {
            use_type_invariant(&*self);
        }
        let i = match self.find_game(gid) {
            Some(i) => i,
            None => return,
        };
        if !self.games[i].is_standby {
            return;
        }
        let ghost before = self@.games;
        let mut g = self.take_game(i);
        g.players = Vec::new();
        g.host_persona = 0;
        g.phase = GamePhase::PreGame;
        g.map_path = String::new();
        g.start_count = 0;
        g.password = String::new();
        g.enable_special_abilities = true;
        g.enable_tech_tree = true;
        g.enable_oil_economy = false;
        g.enable_infinite_resource_centers = false;
        g.enable_unlock_full_faction_roster = false;
        g.replicated_wire = None;
        g.pros_wire = None;
        match restore_name {
            Some(n) => {
                g.name = n;
            },
            None => {},
        }
        assert(players_view(g.players@) =~= Seq::<PlayerView>::empty());
        self.put_game(i, g, Ghost(before));
        self.clear_blaze_push_flags(gid);
        self.clear_join_auth_for_gid(gid);
    }

    /// Marks `gid` standby, then resets it as after a pool return.
    pub fn force_standby_reset(&mut self, gid: i64, restore_name: Option<String>)
        ensures
            match game_of(old(self)@.games, gid) {
                Some(g) => {
                    let r0 = update_game(
                        old(self)@,
                        game_index(old(self)@.games, gid),
                        GameView { is_standby: true, ..g },
                    );
                    let r1 = update_game(
                        r0,
                        game_index(old(self)@.games, gid),
                        standby_reset(GameView { is_standby: true, ..g }, opt_string_view(restore_name)),
                    );
                    let r2 = flags_cleared(r1, gid);
                    final(self)@ == (RegistryView { join_auth: drop_auth(r2.join_auth, gid), ..r2 })
                },
                None => final(self)@ == old(self)@,
            },
    {
        proof {
            use_type_invariant(&*self);
        }
        match self.find_game(gid) {
            Some(i) => {
                let ghost before = self@.games;
                let mut g = self.take_game(i);
                g.is_standby = true;
                self.put_game(i, g, Ghost(before));
                proof {
                    lemma_sorted_update(before, i as int, GameView { is_standby: true, ..before[i as int] });
                    lemma_game_index(self@.games, gid, i as int);
                }
            },
            None => return,
        }
        self.reset_standby_after_pool_return(gid, restore_name);
    }
}

pub open spec fn opt_string_view(v: Option<String>) -> Option<Seq<char>> {
    match v {
        Some(s) => Some(s@),
        None => None,
    }
}

/// Index of the first human with persona `pid`, or -1.
pub open spec fn first_human(s: Seq<PlayerView>, pid: i64) -> int
    decreases s.len(),
{
    if s.len() == 0 {
        -1
    } else if s[0].persona_id == pid && !s[0].is_ai {
        0
    } else {
        let r = first_human(s.drop_first(), pid);
        if r < 0 {
            -1
        } else {
            r + 1
        }
    }
}

proof fn lemma_first_human(s: Seq<PlayerView>, pid: i64, i: int)
    requires
        0 <= i <= s.len(),
        forall|k: int| 0 <= k < i ==> !((#[trigger] s[k]).persona_id == pid && !s[k].is_ai),
    ensures
        i < s.len() && s[i].persona_id == pid && !s[i].is_ai ==> first_human(s, pid) == i,
        i == s.len() ==> first_human(s, pid) == -1,
    decreases i,
{
    if i > 0 {
        assert forall|k: int| 0 <= k < i - 1 implies !((#[trigger] s.drop_first()[k]).persona_id == pid
            && !s.drop_first()[k].is_ai) by {
            assert(s.drop_first()[k] == s[k + 1]);
        }
        lemma_first_human(s.drop_first(), pid, i - 1);
    }
}

proof fn lemma_first_player_bound(s: Seq<PlayerView>, pid: i64)
    ensures
        -1 <= first_player(s, pid) < s.len(),
        first_player(s, pid) >= 0 ==> s[first_player(s, pid)].persona_id == pid,
    decreases s.len(),
{
    if s.len() > 0 {
        lemma_first_player_bound(s.drop_first(), pid);
    }
}

proof fn lemma_first_human_bound(s: Seq<PlayerView>, pid: i64)
    ensures
        -1 <= first_human(s, pid) < s.len(),
        first_human(s, pid) >= 0 ==> s[first_human(s, pid)].persona_id == pid,
        first_human(s, pid) >= 0 ==> first_player(s, pid) >= 0,
    decreases s.len(),
{
    if s.len() > 0 {
        lemma_first_human_bound(s.drop_first(), pid);
        lemma_first_player_bound(s, pid);
        lemma_first_player_bound(s.drop_first(), pid);
    }
}

/// The roster without persona `pid`.
pub open spec fn players_without(s: Seq<PlayerView>, pid: i64) -> Seq<PlayerView>
    decreases s.len(),
{
    if s.len() == 0 {
        s
    } else {
        let r = players_without(s.drop_last(), pid);
        if s.last().persona_id != pid {
            r.push(s.last())
        } else {
            r
        }
    }
}

/// Persona of the first human in the roster, or 0.
pub open spec fn first_human_persona(s: Seq<PlayerView>) -> i64
    decreases s.len(),
{
    if s.len() == 0 {
        0
    } else if !s[0].is_ai {
        s[0].persona_id
    } else {
        first_human_persona(s.drop_first())
    }
}

pub open spec fn max_i64(a: int, b: int) -> int {
    if a >= b {
        a
    } else {
        b
    }
}

/// The attributes of a player turned AI after human `leaving` left.
pub open spec fn ai_attribs(a0: Seq<(Seq<char>, Seq<char>)>, leaving: PlayerView) -> Seq<(Seq<char>, Seq<char>)> {
    let general = attr_value(leaving.attribs, "_general"@);
    let faction = match attr_value(leaving.attribs, "_faction"@) {
        Some(f) => f,
        None => "APA"@,
    };
    let a1 = attr_inserted(a0, "_isai"@, "1"@);
    let a2 = match general {
        Some(g) => if g.len() > 0 && g != "0"@ {
            attr_inserted(a1, "_general"@, g)
        } else {
            a1
        },
        None => a1,
    };
    let a3 = if attr_index(a2, "_faction"@) < 0 {
        attr_inserted(a2, "_faction"@, faction)
    } else {
        a2
    };
    let a4 = attr_inserted(a3, "_team"@, dec_int(max_i64(leaving.team as int, 1)));
    attr_inserted(a4, "_startpoint"@, dec_int(max_i64(leaving.slot + 1, 1)))
}

/// A human with persona `pid` leaving `g` while other humans stay becomes an AI
/// (persona `ai_pid`, `AI_{slot+1}`); otherwise every row of `pid` goes. The
/// host passes to the first remaining human (0 if none).
pub open spec fn roster_after_leave(g: GameView, pid: i64, ai_pid: i64) -> (Seq<PlayerView>, bool) {
    let lh = first_human(g.players, pid);
    if lh >= 0 && human_count(g.players) > 1 {
        let leaving = g.players[lh];
        let k = first_player(g.players, pid);
        let p = g.players[k];
        (
            g.players.update(
                k,
                PlayerView {
                    is_ai: true,
                    ready: true,
                    persona_id: ai_pid,
                    display_name: "AI_"@ + dec_int(leaving.slot + 1),
                    attribs: ai_attribs(p.attribs, leaving),
                    ..p
                },
            ),
            true,
        )
    } else {
        (players_without(g.players, pid), false)
    }
}

pub open spec fn in_ai_range(p: i64) -> bool {
    AI_PERSONA_MIN <= p < AI_PERSONA_MAX
}

fn players_without_exec(players: Vec<CncPlayer>, pid: i64) -> (r: Vec<CncPlayer>)
    ensures
        players_view(r@) == players_without(players_view(players@), pid),
{
    let ghost ps = players_view(players@);
    let mut src = players;
    let mut kept: Vec<CncPlayer> = Vec::new();
    let ghost n = ps.len();
    let ghost mut i: int = 0;
    while src.len() > 0
        invariant
            0 <= i <= n,
            n == ps.len(),
            players_view(src@) == ps.subrange(i, n as int),
            players_view(kept@) == players_without(ps.subrange(0, i), pid),
        decreases src@.len(),
    {
        let ghost before_src = players_view(src@);
        assert(before_src.len() == src@.len());
        let p = src.remove(0);
        assert(players_view(src@) =~= before_src.drop_first());
        assert(before_src[0] == ps[i]);
        assert(ps.subrange(0, i + 1).drop_last() =~= ps.subrange(0, i));
        if p.persona_id != pid {
            let ghost before_kept = players_view(kept@);
            let ghost pv = p@;
            kept.push(p);
            assert(players_view(kept@) =~= before_kept.push(pv));
        }
        proof {
            i = i + 1;
        }
        assert(players_view(src@) =~= ps.subrange(i, n as int));
    }
    assert(ps.subrange(0, i) =~= ps);
    kept
}

fn first_human_persona_exec(players: &Vec<CncPlayer>) -> (r: i64)
    ensures
        r == first_human_persona(players_view(players@)),
{
    let ghost ps = players_view(players@);
    let mut k: usize = 0;
    assert(ps.subrange(0, ps.len() as int) =~= ps);
    while k < players.len()
        invariant
            k <= players@.len(),
            ps == players_view(players@),
            first_human_persona(ps) == first_human_persona(ps.subrange(k as int, ps.len() as int)),
        decreases players@.len() - k,
    {
        let ghost t = ps.subrange(k as int, ps.len() as int);
        assert(t[0] == players@[k as int]@);
        assert(t.drop_first() =~= ps.subrange(k + 1, ps.len() as int));
        if !players[k].is_ai {
            return players[k].persona_id;
        }
        k = k + 1;
    }
    0
}

fn first_human_exec(players: &Vec<CncPlayer>, pid: i64) -> (r: Option<usize>)
    ensures
        match r {
            Some(k) => k < players@.len() && first_human(players_view(players@), pid) == k,
            None => first_human(players_view(players@), pid) == -1,
        },
{
    let ghost ps = players_view(players@);
    let mut k: usize = 0;
    while k < players.len()
        invariant
            k <= players@.len(),
            ps == players_view(players@),
            forall|j: int| 0 <= j < k ==> !((#[trigger] ps[j]).persona_id == pid && !ps[j].is_ai),
        decreases players@.len() - k,
    {
        assert(ps[k as int] == players@[k as int]@);
        if players[k].persona_id == pid && !players[k].is_ai {
            proof {
                lemma_first_human(ps, pid, k as int);
            }
            return Some(k);
        }
        k = k + 1;
    }
    proof {
        lemma_first_human(ps, pid, k as int);
    }
    None
}

fn dec_i64_string(v: i64) -> (s: String)
    ensures
        s@ == dec_int(v as int),
{
    let mut o: Vec<char> = Vec::new();
    push_dec_i64(&mut o, v);
    chars_to_string(&o)
}

/// What `remove_player_ex` leaves (`before` to `after`, result `r`).
pub open spec fn player_removed(before: RegistryView, after: RegistryView, gid: i64, persona_id: i64, r: Option<(usize, bool)>) -> bool {
    match game_of(before.games, gid) {
        None => r is None && after == before,
        Some(g) => exists|ai_pid: i64|
            #![trigger roster_after_leave(g, persona_id, ai_pid)]
            in_ai_range(ai_pid) && ({
                let (players, converted) = roster_after_leave(g, persona_id, ai_pid);
                let host = if g.host_persona == persona_id {
                    first_human_persona(players)
                } else {
                    g.host_persona
                };
                &&& r == Some((human_count(players) as usize, converted))
                &&& after == update_game(
                    before,
                    game_index(before.games, gid),
                    GameView { players, host_persona: host, ..g },
                )
            }),
    }
}

impl GameRegistry {
    /// Removes persona `pid` from `gid`: the humans left and whether the player
    /// was turned into an AI. `None` without the game.
    #[verifier::rlimit(40)]
    pub fn remove_player_ex(&mut self, gid: i64, persona_id: i64) -> (r: Option<(usize, bool)>)
        ensures
            player_removed(old(self)@, final(self)@, gid, persona_id, r),
    {
        proof {
            use_type_invariant(&*self);
        }
        let i = match self.find_game(gid) {
            Some(i) => i,
            None => return None,
        };
        let ai_pid: i64 = AI_PERSONA_MIN + crate::cnc::dedicated_pool::random_below(800_000_000) as i64;
        let ghost before = self@.games;
        let ghost g0 = before[i as int];
        let mut g = self.take_game(i);
        let ghost ps = players_view(g.players@);
        let hc = count_humans(&g.players);
        let leaving = first_human_exec(&g.players, persona_id);
        proof {
            lemma_first_human_bound(ps, persona_id);
            lemma_first_player_bound(ps, persona_id);
        }
        let converted = match leaving {
            Some(lh) => hc > 1,
            None => false,
        };
        if converted {
            let lh = leaving.unwrap();
            let slot = g.players[lh].slot;
            let team = g.players[lh].team;
            let faction = match attr_get(&g.players[lh].attribs, "_faction") {
                Some(f) => f,
                None => chars_to_string(&str_chars("APA")),
            };
            let general = attr_get(&g.players[lh].attribs, "_general");
            let k = first_player_exec(&g.players, persona_id).unwrap();
            let ghost leaving_v = ps[lh as int];
            let mut players: Vec<CncPlayer> = Vec::new();
            std::mem::swap(&mut players, &mut g.players);
            let mut p = players.remove(k);
            let ghost p0 = p@;
            p.is_ai = true;
            p.ready = true;
            p.persona_id = ai_pid;
            let mut name: Vec<char> = Vec::new();
            push_str(&mut name, "AI_");
            push_dec_i64(&mut name, slot as i64 + 1);
            p.display_name = chars_to_string(&name);
            attr_insert(&mut p.attribs, chars_to_string(&str_chars("_isai")), chars_to_string(&str_chars("1")));
            match general {
                Some(gg) => {
                    let gc = str_chars(gg.as_str());
                    if gc.len() > 0 && !crate::text::eq_lit(&gc, "0") {
                        attr_insert(&mut p.attribs, chars_to_string(&str_chars("_general")), gg);
                    }
                },
                None => {},
            }
            if !attr_contains(&p.attribs, "_faction") {
                attr_insert(&mut p.attribs, chars_to_string(&str_chars("_faction")), faction);
            }
            let team1: i64 = if team >= 1 { team as i64 } else { 1 };
            attr_insert(&mut p.attribs, chars_to_string(&str_chars("_team")), dec_i64_string(team1));
            let sp: i64 = if slot as i64 + 1 >= 1 { slot as i64 + 1 } else { 1 };
            attr_insert(&mut p.attribs, chars_to_string(&str_chars("_startpoint")), dec_i64_string(sp));
            let ghost pv = p@;
            let ghost w = players_view(players@);
            assert(w.len() == players@.len());
            players.insert(k, p);
            assert(players_view(players@) =~= w.insert(k as int, pv));
            assert(w.insert(k as int, pv) =~= ps.update(k as int, pv));
            assert(pv.attribs == ai_attribs(p0.attribs, leaving_v));
            g.players = players;
        } else {
            let mut players: Vec<CncPlayer> = Vec::new();
            std::mem::swap(&mut players, &mut g.players);
            g.players = players_without_exec(players, persona_id);
        }
        if g.host_persona == persona_id {
            g.host_persona = first_human_persona_exec(&g.players);
        }
        let remaining = count_humans(&g.players);
        self.put_game(i, g, Ghost(before));
        assert(roster_after_leave(g0, persona_id, ai_pid).1 == converted);
        Some((remaining, converted))
    }

    /// Humans left in `gid` after persona `pid` leaves.
    pub fn remove_player(&mut self, gid: i64, persona_id: i64) -> (r: Option<usize>)
        ensures
            match game_of(old(self)@.games, gid) {
                None => r is None && final(self)@ == old(self)@,
                Some(g) => exists|ai_pid: i64|
                    #![trigger roster_after_leave(g, persona_id, ai_pid)]
                    in_ai_range(ai_pid) && ({
                        let (players, converted) = roster_after_leave(g, persona_id, ai_pid);
                        let host = if g.host_persona == persona_id {
                            first_human_persona(players)
                        } else {
                            g.host_persona
                        };
                        &&& r == Some(human_count(players) as usize)
                        &&& final(self)@ == update_game(
                            old(self)@,
                            game_index(old(self)@.games, gid),
                            GameView { players, host_persona: host, ..g },
                        )
                    }),
            },
    {
        match self.remove_player_ex(gid, persona_id) {
            Some((h, _)) => Some(h),
            None => None,
        }
    }
}

/// The gids of the games held by dedicated `sid`, in order.
pub open spec fn gids_of_dedicated(s: Seq<GameView>, sid: u64) -> Seq<i64>
    decreases s.len(),
{
    if s.len() == 0 {
        Seq::empty()
    } else {
        let r = gids_of_dedicated(s.drop_last(), sid);
        if s.last().dedicated_session_id == Some(sid) {
            r.push(s.last().gid)
        } else {
            r
        }
    }
}

/// The registry after destroying each of `gids` in turn.
pub open spec fn destroyed_all(r: RegistryView, gids: Seq<i64>) -> RegistryView
    decreases gids.len(),
{
    if gids.len() == 0 {
        r
    } else {
        destroyed(destroyed_all(r, gids.drop_last()), gids.last())
    }
}

/// Whether a game row is an orphan lobby: not kept, and not backed by a live
/// pool dedicated.
pub open spec fn orphan_lobby(g: GameView, keep: Option<i64>, live: Seq<u64>) -> bool {
    keep != Some(g.gid) && match g.dedicated_session_id {
        None => true,
        Some(sid) => !live.contains(sid),
    }
}

pub open spec fn orphan_gids(s: Seq<GameView>, keep: Option<i64>, live: Seq<u64>) -> Seq<i64>
    decreases s.len(),
{
    if s.len() == 0 {
        Seq::empty()
    } else {
        let r = orphan_gids(s.drop_last(), keep, live);
        if orphan_lobby(s.last(), keep, live) {
            r.push(s.last().gid)
        } else {
            r
        }
    }
}

/// Gids of games served by a registered dedicated (those in `registered`).
pub open spec fn registered_gids(s: Seq<GameView>, registered: Seq<u64>) -> Seq<i64>
    decreases s.len(),
{
    if s.len() == 0 {
        Seq::empty()
    } else {
        let r = registered_gids(s.drop_last(), registered);
        match s.last().dedicated_session_id {
            Some(sid) => if registered.contains(sid) {
                r.push(s.last().gid)
            } else {
                r
            },
            None => r,
        }
    }
}

pub(crate) fn contains_u64(v: &Vec<u64>, x: u64) -> (b: bool)
    ensures
        b == v@.contains(x),
{
    let mut i: usize = 0;
    while i < v.len()
        invariant
            i <= v@.len(),
            forall|k: int| 0 <= k < i ==> v@[k] != x,
        decreases v@.len() - i,
    {
        if v[i] == x {
            assert(v@.contains(x));
            return true;
        }
        i = i + 1;
    }
    false
}

impl GameRegistry {
    fn clear_pending_map_rows(&mut self, gid: i64)
        ensures
            final(self)@ == (RegistryView {
                pending_maps: drop_pending_map(old(self)@.pending_maps, gid),
                ..old(self)@
            }),
    {
        proof {
            use_type_invariant(&*self);
        }
        let ghost s = self@.pending_maps;
        let mut src: Vec<PendingMap> = Vec::new();
        std::mem::swap(&mut src, &mut self.pending_maps);
        let mut kept: Vec<PendingMap> = Vec::new();
        let ghost n = s.len();
        let ghost mut i: int = 0;
        while src.len() > 0
            invariant
                0 <= i <= n,
                n == s.len(),
                pending_map_view(src@) == s.subrange(i, n as int),
                pending_map_view(kept@) == drop_pending_map(s.subrange(0, i), gid),
            decreases src@.len(),
        {
            let ghost before = pending_map_view(src@);
            assert(before.len() == src@.len());
            let m = src.remove(0);
            assert(pending_map_view(src@) =~= before.drop_first());
            assert(before[0] == s[i]);
            assert(s.subrange(0, i + 1).drop_last() =~= s.subrange(0, i));
            if m.gid != gid {
                let ghost bk = pending_map_view(kept@);
                let ghost mv = (m.gid, m.path@, m.start_count);
                kept.push(m);
                assert(pending_map_view(kept@) =~= bk.push(mv));
            }
            proof {
                i = i + 1;
            }
            assert(pending_map_view(src@) =~= s.subrange(i, n as int));
        }
        assert(s.subrange(0, i) =~= s);
        self.pending_maps = kept;
    }

    /// Forgets the pending map of `gid`.
    pub fn clear_pending_map(&mut self, gid: i64)
        ensures
            final(self)@ == (RegistryView {
                pending_maps: drop_pending_map(old(self)@.pending_maps, gid),
                ..old(self)@
            }),
    {
        self.clear_pending_map_rows(gid);
    }

    /// Removes game `gid` with its pending map, flags and orchestration.
    pub fn destroy_game(&mut self, gid: i64)
        ensures
            final(self)@ == destroyed(old(self)@, gid),
    {
        proof {
            use_type_invariant(&*self);
        }
        match self.find_game(gid) {
            Some(i) => {
                let _ = self.take_game(i);
            },
            None => {},
        }
        self.clear_pending_map_rows(gid);
        self.clear_blaze_push_flags(gid);
    }

    /// Destroys every game held by dedicated `dedicated_session_id`; their gids.
    pub fn destroy_games_for_dedicated(&mut self, dedicated_session_id: u64) -> (gids: Vec<i64>)
        ensures
            gids@ == gids_of_dedicated(old(self)@.games, dedicated_session_id),
            final(self)@ == destroyed_all(old(self)@, gids@),
    {
        let gids = self.gids_of_dedicated_exec(dedicated_session_id);
        self.destroy_each(&gids);
        gids
    }

    fn gids_of_dedicated_exec(&self, sid: u64) -> (v: Vec<i64>)
        ensures
            v@ == gids_of_dedicated(self@.games, sid),
    {
        let ghost s = self@.games;
        let mut v: Vec<i64> = Vec::new();
        let mut i: usize = 0;
        while i < self.games.len()
            invariant
                i <= self.games@.len(),
                s == games_view(self.games@),
                v@ == gids_of_dedicated(s.subrange(0, i as int), sid),
            decreases self.games@.len() - i,
        {
            assert(s.subrange(0, i + 1).drop_last() =~= s.subrange(0, i as int));
            if self.games[i].dedicated_session_id == Some(sid) {
                v.push(self.games[i].gid);
            }
            i = i + 1;
        }
        assert(s.subrange(0, i as int) =~= s);
        v
    }

    fn destroy_each(&mut self, gids: &Vec<i64>)
        ensures
            final(self)@ == destroyed_all(old(self)@, gids@),
    {
        let mut i: usize = 0;
        while i < gids.len()
            invariant
                i <= gids@.len(),
                self@ == destroyed_all(old(self)@, gids@.subrange(0, i as int)),
            decreases gids@.len() - i,
        {
            assert(gids@.subrange(0, i + 1).drop_last() =~= gids@.subrange(0, i as int));
            self.destroy_game(gids[i]);
            i = i + 1;
        }
        assert(gids@.subrange(0, i as int) =~= gids@);
    }

    /// Destroys lobbies not backed by a live pool dedicated (session ids in
    /// `live_dedicated`), except `keep_gid`; their gids.
    pub fn destroy_orphan_host_lobbies(&mut self, keep_gid: Option<i64>, live_dedicated: &Vec<u64>) -> (gids: Vec<i64>)
        ensures
            gids@ == orphan_gids(old(self)@.games, keep_gid, live_dedicated@),
            final(self)@ == destroyed_all(old(self)@, gids@),
    {
        let ghost s = self@.games;
        let mut v: Vec<i64> = Vec::new();
        let mut i: usize = 0;
        while i < self.games.len()
            invariant
                i <= self.games@.len(),
                s == games_view(self.games@),
                v@ == orphan_gids(s.subrange(0, i as int), keep_gid, live_dedicated@),
            decreases self.games@.len() - i,
        {
            assert(s.subrange(0, i + 1).drop_last() =~= s.subrange(0, i as int));
            let g = &self.games[i];
            let orphan = keep_gid != Some(g.gid) && match g.dedicated_session_id {
                None => true,
                Some(sid) => !contains_u64(live_dedicated, sid),
            };
            if orphan {
                v.push(g.gid);
            }
            i = i + 1;
        }
        assert(s.subrange(0, i as int) =~= s);
        self.destroy_each(&v);
        v
    }

    /// Gids of games whose dedicated is registered (in `registered_dedicated`),
    /// by increasing gid.
    pub fn all_game_gids(&self, registered_dedicated: &Vec<u64>) -> (v: Vec<i64>)
        ensures
            v@ == registered_gids(self@.games, registered_dedicated@),
    {
        let ghost s = self@.games;
        let mut v: Vec<i64> = Vec::new();
        let mut i: usize = 0;
        while i < self.games.len()
            invariant
                i <= self.games@.len(),
                s == games_view(self.games@),
                v@ == registered_gids(s.subrange(0, i as int), registered_dedicated@),
            decreases self.games@.len() - i,
        {
            assert(s.subrange(0, i + 1).drop_last() =~= s.subrange(0, i as int));
            match self.games[i].dedicated_session_id {
                Some(sid) => if contains_u64(registered_dedicated, sid) {
                    v.push(self.games[i].gid);
                },
                None => {},
            }
            i = i + 1;
        }
        assert(s.subrange(0, i as int) =~= s);
        v
    }

    /// Records the lobby's map choice for `gid` (and on its game row).
    pub fn set_map_path(&mut self, gid: i64, map_path: &str)
        ensures
            final(self)@ == map_path_set(old(self)@, gid, map_path@),
    {
        proof {
            use_type_invariant(&*self);
        }
        let ghost before_maps = self@.pending_maps;
        let mut maps: Vec<PendingMap> = Vec::new();
        std::mem::swap(&mut maps, &mut self.pending_maps);
        let m = PendingMap { gid, path: chars_to_string(&str_chars(map_path)), start_count: 0 };
        let ghost mv = (m.gid, m.path@, m.start_count);
        maps.push(m);
        assert(pending_map_view(maps@) =~= before_maps.push(mv));
        self.pending_maps = maps;
        match self.find_game(gid) {
            Some(i) => {
                let ghost before = self@.games;
                let mut g = self.take_game(i);
                g.map_path = chars_to_string(&str_chars(map_path));
                self.put_game(i, g, Ghost(before));
            },
            None => {},
        }
    }

    fn pending_map_path(&self, gid: i64) -> (r: Option<String>)
        ensures
            match r {
                Some(p) => pending_map_of(self@.pending_maps, gid) matches Some(x) && x.0 == p@,
                None => pending_map_of(self@.pending_maps, gid) is None,
            },
    {
        let ghost s = self@.pending_maps;
        let mut i: usize = self.pending_maps.len();
        assert(s.subrange(0, i as int) =~= s);
        while i > 0
            invariant
                i <= self.pending_maps@.len(),
                s == pending_map_view(self.pending_maps@),
                pending_map_of(s, gid) == pending_map_of(s.subrange(0, i as int), gid),
            decreases i,
        {
            let ghost t = s.subrange(0, i as int);
            assert(t.drop_last() =~= s.subrange(0, i - 1));
            if self.pending_maps[i - 1].gid == gid {
                return Some(self.pending_maps[i - 1].path.clone());
            }
            i = i - 1;
        }
        None
    }

    /// The map of `gid`: the lobby's non-empty pending choice, else the game's
    /// map, else empty.
    pub fn get_map_path(&self, gid: i64) -> (p: String)
        ensures
            p@ == match pending_map_of(self@.pending_maps, gid) {
                Some(x) => if x.0.len() > 0 {
                    x.0
                } else {
                    game_map_or_empty(self@.games, gid)
                },
                None => game_map_or_empty(self@.games, gid),
            },
    {
        match self.pending_map_path(gid) {
            Some(p) => {
                if str_chars(p.as_str()).len() > 0 {
                    return p;
                }
            },
            None => {},
        }
        match self.find_game(gid) {
            Some(i) => self.games[i].map_path.clone(),
            None => String::new(),
        }
    }

    /// The map of the active lobby (gid 1), else the default map.
    pub fn active_map_path(&self) -> (p: String)
        ensures
            ({
                let m = match pending_map_of(self@.pending_maps, 1) {
                    Some(x) => if x.0.len() > 0 {
                        x.0
                    } else {
                        game_map_or_empty(self@.games, 1)
                    },
                    None => game_map_or_empty(self@.games, 1),
                };
                p@ == if m.len() > 0 {
                    m
                } else {
                    DEFAULT_MAP_PATH@
                }
            }),
    {
        let p = self.get_map_path(1);
        if str_chars(p.as_str()).len() > 0 {
            p
        } else {
            chars_to_string(&str_chars(DEFAULT_MAP_PATH))
        }
    }

    /// Removes the humans of `gid` and its host; a standby row is then reset.
    pub fn clear_lobby_humans(&mut self, gid: i64, restore_name: Option<String>)
        ensures
            match game_of(old(self)@.games, gid) {
                Some(g) => {
                    let r1 = update_game(
                        old(self)@,
                        game_index(old(self)@.games, gid),
                        GameView { players: ai_only(g.players), host_persona: 0, ..g },
                    );
                    if g.is_standby {
                        let r2 = flags_cleared(
                            update_game(
                                r1,
                                game_index(old(self)@.games, gid),
                                standby_reset(GameView { players: ai_only(g.players), host_persona: 0, ..g }, opt_string_view(restore_name)),
                            ),
                            gid,
                        );
                        final(self)@ == (RegistryView { join_auth: drop_auth(r2.join_auth, gid), ..r2 })
                    } else {
                        final(self)@ == r1
                    }
                },
                None => final(self)@ == old(self)@,
            },
    {
        proof {
            use_type_invariant(&*self);
        }
        let i = match self.find_game(gid) {
            Some(i) => i,
            None => return,
        };
        let was_standby = self.games[i].is_standby;
        let ghost before = self@.games;
        let mut g = self.take_game(i);
        let mut players: Vec<CncPlayer> = Vec::new();
        std::mem::swap(&mut players, &mut g.players);
        g.players = ai_only_exec(players);
        g.host_persona = 0;
        self.put_game(i, g, Ghost(before));
        proof {
            lemma_game_index(self@.games, gid, i as int);
        }
        if was_standby {
            self.reset_standby_after_pool_return(gid, restore_name);
        }
    }

    /// A fresh browser list id (1, 2, ...).
    pub fn alloc_browser_list_id(&mut self) -> (id: i64)
        requires
            old(self)@.next_browser_list_id < i64::MAX,
        ensures
            id == old(self)@.next_browser_list_id,
            final(self)@ == (RegistryView { next_browser_list_id: (id + 1) as i64, ..old(self)@ }),
    {
        proof {
            use_type_invariant(&*self);
        }
        let id = self.next_browser_list_id;
        self.next_browser_list_id = id + 1;
        id
    }

    pub fn store_game_list_snapshot(&mut self, list_id: i64, gids: Vec<i64>)
        ensures
            final(self)@ == (RegistryView { last_snapshot: Some((list_id, gids@)), ..old(self)@ }),
    {
        proof {
            use_type_invariant(&*self);
        }
        self.last_snapshot = Some((list_id, gids));
    }

    /// The last stored snapshot, which is then gone.
    pub fn take_last_game_list_snapshot(&mut self) -> (r: Option<(i64, Vec<i64>)>)
        ensures
            match r {
                Some(x) => old(self)@.last_snapshot == Some((x.0, x.1@)),
                None => old(self)@.last_snapshot is None,
            },
            final(self)@ == (RegistryView { last_snapshot: None, ..old(self)@ }),
    {
        proof {
            use_type_invariant(&*self);
        }
        let mut r: Option<(i64, Vec<i64>)> = None;
        std::mem::swap(&mut r, &mut self.last_snapshot);
        r
    }

    /// Records, at `now`, that the server of match `gid` was lost (positive gids).
    pub fn note_server_lost(&mut self, gid: i64, now: u64)
        ensures
            final(self)@ == if gid > 0 {
                RegistryView { server_lost: old(self)@.server_lost.push((gid, now)), ..old(self)@ }
            } else {
                old(self)@
            },
    {
        proof {
            use_type_invariant(&*self);
        }
        if gid <= 0 {
            return;
        }
        let mut v: Vec<(i64, u64)> = Vec::new();
        std::mem::swap(&mut v, &mut self.server_lost);
        v.push((gid, now));
        self.server_lost = v;
    }

    /// Whether the server of `gid` was reported lost.
    pub fn server_lost(&self, gid: i64) -> (b: bool)
        ensures
            b == exists|k: int| 0 <= k < self@.server_lost.len() && self@.server_lost[k].0 == gid,
    {
        let mut i: usize = 0;
        while i < self.server_lost.len()
            invariant
                i <= self.server_lost@.len(),
                forall|k: int| 0 <= k < i ==> self.server_lost@[k].0 != gid,
            decreases self.server_lost@.len() - i,
        {
            if self.server_lost[i].0 == gid {
                assert(self@.server_lost[i as int].0 == gid);
                return true;
            }
            i = i + 1;
        }
        false
    }

    /// Forgets the lost-server note of match `gid` and the lost personas of
    /// that match (positive gids); other matches keep theirs.
    pub fn clear_match_connection_lost(&mut self, gid: i64)
        ensures
            final(self)@ == if gid > 0 {
                RegistryView {
                    server_lost: drop_lost(old(self)@.server_lost, gid),
                    lost_personas: lost_without_gid(old(self)@.lost_personas, gid),
                    ..old(self)@
                }
            } else {
                old(self)@
            },
    {
        proof {
            use_type_invariant(&*self);
        }
        if gid <= 0 {
            return;
        }
        let ghost s = self.server_lost@;
        let mut kept: Vec<(i64, u64)> = Vec::new();
        let mut i: usize = 0;
        while i < self.server_lost.len()
            invariant
                i <= self.server_lost@.len(),
                s == self.server_lost@,
                kept@ == drop_lost(s.subrange(0, i as int), gid),
            decreases self.server_lost@.len() - i,
        {
            assert(s.subrange(0, i + 1).drop_last() =~= s.subrange(0, i as int));
            let x = self.server_lost[i];
            if x.0 != gid {
                kept.push(x);
            }
            i = i + 1;
        }
        assert(s.subrange(0, i as int) =~= s);
        self.server_lost = kept;
        self.drop_lost_personas_of_gid(gid);
    }

    fn drop_lost_personas_of_gid(&mut self, gid: i64)
        ensures
            final(self)@ == (RegistryView {
                lost_personas: lost_without_gid(old(self)@.lost_personas, gid),
                ..old(self)@
            }),
    {
        proof {
            use_type_invariant(&*self);
        }
        let ghost s = self.lost_personas@;
        let mut kept: Vec<(i64, i64, u64)> = Vec::new();
        let mut i: usize = 0;
        while i < self.lost_personas.len()
            invariant
                i <= self.lost_personas@.len(),
                s == self.lost_personas@,
                kept@ == lost_without_gid(s.subrange(0, i as int), gid),
            decreases self.lost_personas@.len() - i,
        {
            assert(s.subrange(0, i + 1).drop_last() =~= s.subrange(0, i as int));
            let x = self.lost_personas[i];
            if x.1 != gid {
                kept.push(x);
            }
            i = i + 1;
        }
        assert(s.subrange(0, i as int) =~= s);
        self.lost_personas = kept;
    }

    /// Whether persona `persona_id` may join `gid` at `now`: always without a
    /// password, for a human already in it, when it has no humans or no host;
    /// otherwise only with a join authorisation still valid at `now`.
    pub fn join_password_allowed(&self, gid: i64, persona_id: i64, now: u64) -> (b: bool)
        ensures
            b == match game_of(self@.games, gid) {
                None => true,
                Some(g) => g.password.len() == 0 || has_human(g.players, persona_id)
                    || human_count(g.players) == 0 || g.host_persona == 0 || (persona_id > 0
                    && auth_valid(self@.join_auth, gid, persona_id, now)),
            },
    {
        let i = match self.find_game(gid) {
            Some(i) => i,
            None => return true,
        };
        let g = &self.games[i];
        if str_chars(g.password.as_str()).len() == 0 {
            return true;
        }
        if has_human_exec(&g.players, persona_id) {
            return true;
        }
        if count_humans(&g.players) == 0 || g.host_persona == 0 {
            return true;
        }
        if persona_id <= 0 {
            return false;
        }
        let mut k: usize = 0;
        while k < self.join_auth.len()
            invariant
                k <= self.join_auth@.len(),
                persona_id > 0,
                forall|j: int| 0 <= j < k ==> !(#[trigger] self@.join_auth[j].0 == gid
                    && self@.join_auth[j].1 == persona_id && self@.join_auth[j].2 > now),
            decreases self.join_auth@.len() - k,
        {
            let a = self.join_auth[k];
            if a.0 == gid && a.1 == persona_id && a.2 > now {
                assert(auth_valid(self@.join_auth, gid, persona_id, now)) by {
                    assert(self@.join_auth[k as int] == a);
                }
                return true;
            }
            k = k + 1;
        }
        false
    }

    /// Authorises persona `persona_id` to join `gid` until `until` (Unix seconds).
    pub fn grant_join_password_auth(&mut self, gid: i64, persona_id: i64, until: u64)
        ensures
            final(self)@ == (RegistryView {
                join_auth: old(self)@.join_auth.push((gid, persona_id, until)),
                ..old(self)@
            }),
    {
        proof {
            use_type_invariant(&*self);
        }
        let mut v: Vec<(i64, i64, u64)> = Vec::new();
        std::mem::swap(&mut v, &mut self.join_auth);
        v.push((gid, persona_id, until));
        self.join_auth = v;
    }
}

/// Some authorisation for (`gid`, `pid`) is still valid at `now`.
pub open spec fn auth_valid(s: Seq<(i64, i64, u64)>, gid: i64, pid: i64, now: u64) -> bool {
    exists|j: int| 0 <= j < s.len() && s[j].0 == gid && s[j].1 == pid && s[j].2 > now
}

/// The lost personas without those of match `gid`.
pub open spec fn lost_without_gid(s: Seq<(i64, i64, u64)>, gid: i64) -> Seq<(i64, i64, u64)>
    decreases s.len(),
{
    if s.len() == 0 {
        s
    } else {
        let r = lost_without_gid(s.drop_last(), gid);
        if s.last().1 != gid {
            r.push(s.last())
        } else {
            r
        }
    }
}

pub open spec fn drop_lost(s: Seq<(i64, u64)>, gid: i64) -> Seq<(i64, u64)>
    decreases s.len(),
{
    if s.len() == 0 {
        s
    } else {
        let r = drop_lost(s.drop_last(), gid);
        if s.last().0 != gid {
            r.push(s.last())
        } else {
            r
        }
    }
}

pub open spec fn game_map_or_empty(s: Seq<GameView>, gid: i64) -> Seq<char> {
    match game_of(s, gid) {
        Some(g) => g.map_path,
        None => Seq::empty(),
    }
}

/// The AI rows of a roster.
pub open spec fn ai_only(s: Seq<PlayerView>) -> Seq<PlayerView>
    decreases s.len(),
{
    if s.len() == 0 {
        s
    } else {
        let r = ai_only(s.drop_last());
        if s.last().is_ai {
            r.push(s.last())
        } else {
            r
        }
    }
}

fn ai_only_exec(players: Vec<CncPlayer>) -> (r: Vec<CncPlayer>)
    ensures
        players_view(r@) == ai_only(players_view(players@)),
{
    let ghost ps = players_view(players@);
    let mut src = players;
    let mut kept: Vec<CncPlayer> = Vec::new();
    let ghost n = ps.len();
    let ghost mut i: int = 0;
    while src.len() > 0
        invariant
            0 <= i <= n,
            n == ps.len(),
            players_view(src@) == ps.subrange(i, n as int),
            players_view(kept@) == ai_only(ps.subrange(0, i)),
        decreases src@.len(),
    {
        let ghost before_src = players_view(src@);
        assert(before_src.len() == src@.len());
        let p = src.remove(0);
        assert(players_view(src@) =~= before_src.drop_first());
        assert(before_src[0] == ps[i]);
        assert(ps.subrange(0, i + 1).drop_last() =~= ps.subrange(0, i));
        if p.is_ai {
            let ghost before_kept = players_view(kept@);
            let ghost pv = p@;
            kept.push(p);
            assert(players_view(kept@) =~= before_kept.push(pv));
        }
        proof {
            i = i + 1;
        }
        assert(players_view(src@) =~= ps.subrange(i, n as int));
    }
    assert(ps.subrange(0, i) =~= ps);
    kept
}

/// What a reported client mesh leads to.
pub enum MeshUpdateResult {
    /// The client's join notifications are not out yet: the mesh waits.
    DeferredUntilHostReady,
    Push(Vec<OutgoingPush>),
}

/// The orchestration step taken for a client mesh report.
#[derive(Debug, Clone, Copy, PartialEq, Eq, Structural)]
pub enum MeshStep {
    /// No reset orchestration for the gid: notify at once.
    NotOrchestrated,
    /// Join notifications still held: the mesh is remembered for later.
    DeferredUntilHostReady,
    /// Join notifications out: the mesh counts as connected.
    Connected,
}

/// A fresh orchestration record.
pub open spec fn new_orch(gid: i64, client: u64, dedicated: Option<u64>) -> OrchView {
    OrchView {
        gid,
        client_session_id: client,
        dedicated_session_id: dedicated,
        dedicated_host_ready: false,
        join_pushes_released: false,
        mesh_active_connected: false,
        simucloud_match_ready: false,
        pending_mesh_pid: None,
        pending_game_ready_pid: None,
        deferred_join_pushes: None,
    }
}

/// The orchestrations with `o` in place of the one for its gid (appended when new).
pub open spec fn put_orch(s: Seq<OrchView>, o: OrchView) -> Seq<OrchView> {
    let i = orch_index(s, o.gid);
    if i >= 0 {
        s.update(i, o)
    } else {
        s.push(o)
    }
}

fn new_orch_exec(gid: i64, client: u64, dedicated: Option<u64>) -> (o: GidOrchestration)
    ensures
        o@ == new_orch(gid, client, dedicated),
{
    GidOrchestration {
        gid,
        client_session_id: client,
        dedicated_session_id: dedicated,
        dedicated_host_ready: false,
        join_pushes_released: false,
        mesh_active_connected: false,
        simucloud_match_ready: false,
        pending_mesh_pid: None,
        pending_game_ready_pid: None,
        deferred_join_pushes: None,
    }
}

impl GameRegistry {
    /// Takes the orchestration of `gid` out (for a change that puts it back).
    fn take_orch(&mut self, gid: i64) -> (o: Option<GidOrchestration>)
        ensures
            match o {
                Some(x) => orch_of(old(self)@.orchestration, gid) == Some(x@) && x.gid == gid,
                None => orch_of(old(self)@.orchestration, gid) is None,
            },
            final(self)@ == (RegistryView {
                orchestration: drop_orch(old(self)@.orchestration, gid),
                ..old(self)@
            }),
    {
        proof {
            use_type_invariant(&*self);
        }
        match self.find_orch(gid) {
            Some(i) => {
                let ghost before = self@.orchestration;
                let mut v: Vec<GidOrchestration> = Vec::new();
                std::mem::swap(&mut v, &mut self.orchestration);
                let o = v.remove(i);
                assert(orch_view(v@) =~= before.remove(i as int));
                assert(unique_orch(orch_view(v@))) by {
                    let t = orch_view(v@);
                    assert forall|x: int, y: int| 0 <= x < y < t.len() implies #[trigger] t[x].gid
                        != #[trigger] t[y].gid by {
                        let xx = if x < i { x } else { x + 1 };
                        let yy = if y < i { y } else { y + 1 };
                        assert(before[xx].gid != before[yy].gid);
                    }
                }
                self.orchestration = v;
                Some(o)
            },
            None => None,
        }
    }

    /// Puts an orchestration back (its gid has none now).
    fn give_orch(&mut self, o: GidOrchestration)
        requires
            orch_index(old(self)@.orchestration, o.gid) == -1,
        ensures
            final(self)@ == (RegistryView {
                orchestration: old(self)@.orchestration.push(o@),
                ..old(self)@
            }),
    {
        proof {
            use_type_invariant(&*self);
        }
        let ghost before = self@.orchestration;
        let mut v: Vec<GidOrchestration> = Vec::new();
        std::mem::swap(&mut v, &mut self.orchestration);
        let ghost ov = o@;
        v.push(o);
        assert(orch_view(v@) =~= before.push(ov));
        assert(unique_orch(orch_view(v@))) by {
            let t = orch_view(v@);
            assert forall|x: int, y: int| 0 <= x < y < t.len() implies #[trigger] t[x].gid
                != #[trigger] t[y].gid by {
                if y < before.len() {
                    assert(before[x].gid != before[y].gid);
                } else {
                    if before[x].gid == ov.gid {
                        assert(exists|k: int| 0 <= k < before.len() && before[k].gid == ov.gid);
                    }
                }
            }
        }
        self.orchestration = v;
    }

    /// A pooled dedicated was assigned to `gid`: one-shot flags cleared and a
    /// fresh orchestration started.
    pub fn begin_reset_orchestration(&mut self, gid: i64, client_session_id: u64, dedicated_session_id: u64)
        ensures
            final(self)@ == orchestration_begun(old(self)@, gid, client_session_id, dedicated_session_id),
    {
        proof {
            use_type_invariant(&*self);
        }
        self.clear_blaze_one_shot_flags(gid);
        let _ = self.take_orch(gid);
        proof {
            lemma_drop_orch_absent(old(self)@.orchestration, gid);
        }
        self.give_orch(new_orch_exec(gid, client_session_id, Some(dedicated_session_id)));
    }

    /// Marks the mesh of `gid` connected in its orchestration, if any.
    pub fn mark_orch_mesh_already_connected(&mut self, gid: i64)
        ensures
            final(self)@ == orch_mesh_marked(old(self)@, gid),
    {
        proof {
            use_type_invariant(&*self);
        }
        match self.take_orch(gid) {
            Some(mut o) => {
                o.mesh_active_connected = true;
                proof {
                    lemma_drop_orch_absent(old(self)@.orchestration, gid);
                }
                self.give_orch(o);
            },
            None => {},
        }
    }

    /// The client session of `gid`: from its orchestration, else the pool's
    /// assignment (`pool_client`).
    pub fn client_session_for_gid(&self, gid: i64, pool_client: Option<u64>) -> (r: Option<u64>)
        ensures
            r == match orch_of(self@.orchestration, gid) {
                Some(o) => Some(o.client_session_id),
                None => pool_client,
            },
    {
        match self.find_orch(gid) {
            Some(i) => Some(self.orchestration[i].client_session_id),
            None => pool_client,
        }
    }

    /// Gids whose SimuCloud match is ready, in orchestration order.
    pub fn simucloud_ready_gids(&self) -> (v: Vec<i64>)
        ensures
            v@ == ready_gids(self@.orchestration),
    {
        let ghost s = self@.orchestration;
        let mut v: Vec<i64> = Vec::new();
        let mut i: usize = 0;
        while i < self.orchestration.len()
            invariant
                i <= self.orchestration@.len(),
                s == orch_view(self.orchestration@),
                v@ == ready_gids(s.subrange(0, i as int)),
            decreases self.orchestration@.len() - i,
        {
            assert(s.subrange(0, i + 1).drop_last() =~= s.subrange(0, i as int));
            if self.orchestration[i].simucloud_match_ready {
                v.push(self.orchestration[i].gid);
            }
            i = i + 1;
        }
        assert(s.subrange(0, i as int) =~= s);
        v
    }

    /// Holds the client's join notifications for `gid` until its dedicated host
    /// is set up. When the host is already ready they are released at once: the
    /// client session, the notifications and the mesh persona noted meanwhile.
    /// `peek_dedicated` is the pool's dedicated for `gid` (used for a new record).
    pub fn defer_client_join_pushes(
        &mut self,
        gid: i64,
        client_session_id: u64,
        peek_dedicated: Option<u64>,
        pushes: Vec<OutgoingPush>,
    ) -> (r: Option<(u64, Vec<OutgoingPush>, Option<i64>)>)
        ensures
            ({
                let o0 = match orch_of(old(self)@.orchestration, gid) {
                    Some(o) => o,
                    None => new_orch(gid, client_session_id, peek_dedicated),
                };
                let o1 = OrchView { client_session_id, ..o0 };
                let base = drop_orch(old(self)@.orchestration, gid);
                if o1.join_pushes_released || o1.deferred_join_pushes is Some {
                    r is None && final(self)@ == (RegistryView { orchestration: base.push(o1), ..old(self)@ })
                } else if o1.dedicated_host_ready {
                    r matches Some(x) && x.0 == client_session_id && pushes_view(x.1@) == pushes_view(pushes@)
                        && x.2 == o1.pending_mesh_pid && final(self)@ == (RegistryView {
                        orchestration: base.push(
                            OrchView { join_pushes_released: true, pending_mesh_pid: None, ..o1 },
                        ),
                        ..old(self)@
                    })
                } else {
                    r is None && final(self)@ == (RegistryView {
                        orchestration: base.push(
                            OrchView { deferred_join_pushes: Some(pushes_view(pushes@)), ..o1 },
                        ),
                        ..old(self)@
                    })
                }
            }),
    {
        proof {
            use_type_invariant(&*self);
        }
        let mut o = match self.take_orch(gid) {
            Some(o) => o,
            None => new_orch_exec(gid, client_session_id, peek_dedicated),
        };
        proof {
            lemma_drop_orch_absent(old(self)@.orchestration, gid);
        }
        o.client_session_id = client_session_id;
        if o.join_pushes_released || o.deferred_join_pushes.is_some() {
            self.give_orch(o);
            return None;
        }
        if o.dedicated_host_ready {
            o.join_pushes_released = true;
            let pending = o.pending_mesh_pid;
            o.pending_mesh_pid = None;
            self.give_orch(o);
            return Some((client_session_id, pushes, pending));
        }
        o.deferred_join_pushes = Some(pushes);
        self.give_orch(o);
        None
    }

    /// The dedicated host of `gid` finished setup: held join notifications are
    /// released (client session, notifications, mesh persona noted meanwhile).
    pub fn complete_dedicated_host_setup(&mut self, gid: i64) -> (r: Option<(u64, Vec<OutgoingPush>, Option<i64>)>)
        ensures
            match orch_of(old(self)@.orchestration, gid) {
                None => r is None && final(self)@ == old(self)@,
                Some(o) => {
                    let base = drop_orch(old(self)@.orchestration, gid);
                    if o.join_pushes_released {
                        r is None && final(self)@ == (RegistryView { orchestration: base.push(o), ..old(self)@ })
                    } else {
                        match o.deferred_join_pushes {
                            None => r is None && final(self)@ == (RegistryView {
                                orchestration: base.push(OrchView { dedicated_host_ready: true, ..o }),
                                ..old(self)@
                            }),
                            Some(d) => r matches Some(x) && x.0 == o.client_session_id
                                && pushes_view(x.1@) == d && x.2 == o.pending_mesh_pid && final(self)@
                                == (RegistryView {
                                orchestration: base.push(
                                    OrchView {
                                        dedicated_host_ready: true,
                                        join_pushes_released: true,
                                        deferred_join_pushes: None,
                                        pending_mesh_pid: None,
                                        ..o
                                    },
                                ),
                                ..old(self)@
                            }),
                        }
                    }
                },
            },
    {
        proof {
            use_type_invariant(&*self);
        }
        let mut o = match self.take_orch(gid) {
            Some(o) => o,
            None => return None,
        };
        proof {
            lemma_drop_orch_absent(old(self)@.orchestration, gid);
        }
        if o.join_pushes_released {
            self.give_orch(o);
            return None;
        }
        o.dedicated_host_ready = true;
        let mut deferred: Option<Vec<OutgoingPush>> = None;
        std::mem::swap(&mut deferred, &mut o.deferred_join_pushes);
        match deferred {
            None => {
                self.give_orch(o);
                None
            },
            Some(d) => {
                o.join_pushes_released = true;
                let pending = o.pending_mesh_pid;
                o.pending_mesh_pid = None;
                let client = o.client_session_id;
                self.give_orch(o);
                Some((client, d, pending))
            },
        }
    }

    /// The client reported its mesh for `gid` as persona `pid`.
    pub fn on_client_mesh_update(&mut self, gid: i64, pid: i64) -> (step: MeshStep)
        ensures
            ({
                let r1 = RegistryView { mesh_live: old(self)@.mesh_live.insert(gid), ..old(self)@ };
                match orch_of(old(self)@.orchestration, gid) {
                    None => step == MeshStep::NotOrchestrated && final(self)@ == r1,
                    Some(o) => {
                        let base = drop_orch(old(self)@.orchestration, gid);
                        if !o.join_pushes_released {
                            step == MeshStep::DeferredUntilHostReady && final(self)@ == (RegistryView {
                                orchestration: base.push(OrchView { pending_mesh_pid: Some(pid), ..o }),
                                ..r1
                            })
                        } else {
                            step == MeshStep::Connected && final(self)@ == (RegistryView {
                                orchestration: base.push(OrchView { mesh_active_connected: true, ..o }),
                                ..r1
                            })
                        }
                    },
                }
            }),
    {
        proof {
            use_type_invariant(&*self);
        }
        self.note_client_mesh_connected(gid);
        let mut o = match self.take_orch(gid) {
            Some(o) => o,
            None => return MeshStep::NotOrchestrated,
        };
        proof {
            lemma_drop_orch_absent(old(self)@.orchestration, gid);
        }
        if !o.join_pushes_released {
            o.pending_mesh_pid = Some(pid);
            self.give_orch(o);
            return MeshStep::DeferredUntilHostReady;
        }
        o.mesh_active_connected = true;
        self.give_orch(o);
        MeshStep::Connected
    }

    /// The dedicated took its match assignment: `gid` gets an orchestration if
    /// it has none (client `client_session_id`, dedicated `peek_dedicated`).
    pub fn on_cmd220_delivered_to_dedicated(&mut self, gid: i64, client_session_id: u64, peek_dedicated: Option<u64>)
        ensures
            final(self)@ == match orch_of(old(self)@.orchestration, gid) {
                Some(o) => old(self)@,
                None => RegistryView {
                    orchestration: old(self)@.orchestration.push(new_orch(gid, client_session_id, peek_dedicated)),
                    ..old(self)@
                },
            },
    {
        if self.find_orch(gid).is_some() {
            return;
        }
        self.give_orch(new_orch_exec(gid, client_session_id, peek_dedicated));
    }

    /// The SimuCloud match of `gid` is ready: its client session, the persona
    /// whose GameReady or mesh was waiting, whether the mesh is done, and
    /// whether its connection was already announced.
    pub fn on_simucloud_match_ready(&mut self, gid: i64) -> (r: Option<(u64, Option<i64>, bool, bool)>)
        ensures
            match orch_of(old(self)@.orchestration, gid) {
                None => r is None && final(self)@ == old(self)@,
                Some(o) => {
                    let pid = if o.pending_game_ready_pid is Some {
                        o.pending_game_ready_pid
                    } else {
                        o.pending_mesh_pid
                    };
                    &&& r == Some((o.client_session_id, pid, o.mesh_active_connected || pid is Some, o.mesh_active_connected))
                    &&& final(self)@ == (RegistryView {
                        orchestration: drop_orch(old(self)@.orchestration, gid).push(
                            OrchView { simucloud_match_ready: true, pending_game_ready_pid: None, ..o },
                        ),
                        ..old(self)@
                    })
                },
            },
    {
        proof {
            use_type_invariant(&*self);
        }
        let mut o = match self.take_orch(gid) {
            Some(o) => o,
            None => return None,
        };
        proof {
            lemma_drop_orch_absent(old(self)@.orchestration, gid);
        }
        o.simucloud_match_ready = true;
        let pid = if o.pending_game_ready_pid.is_some() {
            o.pending_game_ready_pid
        } else {
            o.pending_mesh_pid
        };
        o.pending_game_ready_pid = None;
        let client = o.client_session_id;
        let connected = o.mesh_active_connected;
        self.give_orch(o);
        Some((client, pid, connected || pid.is_some(), connected))
    }
}

proof fn lemma_drop_orch_absent(s: Seq<OrchView>, gid: i64)
    requires
        unique_orch(s),
    ensures
        orch_index(drop_orch(s, gid), gid) == -1,
        unique_orch(drop_orch(s, gid)),
{
    let i = orch_index(s, gid);
    let t = drop_orch(s, gid);
    if i >= 0 {
        assert forall|x: int| 0 <= x < t.len() implies t[x].gid != gid by {
            if x < i {
                assert(s[x].gid != s[i].gid);
            } else {
                assert(s[i].gid != s[x + 1].gid);
            }
        }
        assert forall|x: int, y: int| 0 <= x < y < t.len() implies #[trigger] t[x].gid != #[trigger] t[y].gid by {
            let xx = if x < i { x } else { x + 1 };
            let yy = if y < i { y } else { y + 1 };
            assert(s[xx].gid != s[yy].gid);
        }
    } else {
        assert forall|x: int| 0 <= x < t.len() implies t[x].gid != gid by {
            if s[x].gid == gid {
                assert(exists|k: int| 0 <= k < s.len() && s[k].gid == gid);
            }
        }
    }
}

/// Gids whose SimuCloud match is ready, in order.
pub open spec fn ready_gids(s: Seq<OrchView>) -> Seq<i64>
    decreases s.len(),
{
    if s.len() == 0 {
        Seq::empty()
    } else {
        let r = ready_gids(s.drop_last());
        if s.last().simucloud_match_ready {
            r.push(s.last().gid)
        } else {
            r
        }
    }
}

/// How good a pool lobby is as the host's reset target: a chosen map counts 4,
/// players 2, standby 1.
pub open spec fn reset_score(g: GameView) -> nat {
    (if g.map_path.len() > 0 {
        4nat
    } else {
        0nat
    }) + (if g.players.len() > 0 {
        2nat
    } else {
        0nat
    }) + (if g.is_standby {
        1nat
    } else {
        0nat
    })
}

/// A pool lobby (gid 10000 and up) owned by `host`, or an unowned standby row.
pub open spec fn reset_candidate(g: GameView, host: i64) -> bool {
    g.gid >= 10_000 && (g.host_persona == host || (g.is_standby && g.host_persona == 0))
}

/// The first candidate with the highest score, in gid order.
pub open spec fn best_reset(s: Seq<GameView>, host: i64) -> Option<(i64, nat)>
    decreases s.len(),
{
    if s.len() == 0 {
        None
    } else {
        let r = best_reset(s.drop_last(), host);
        let g = s.last();
        if reset_candidate(g, host) && (match r {
            Some(b) => reset_score(g) > b.1,
            None => true,
        }) {
            Some((g.gid, reset_score(g)))
        } else {
            r
        }
    }
}

impl GameRegistry {
    /// The gid a host's `resetDedicatedServer` targets when the request names
    /// none: the best pool lobby of `host`, else `registered_pool_gid` (the
    /// pool's registered row), else 1.
    pub fn resolve_host_reset_gid(&self, host: i64, registered_pool_gid: Option<i64>) -> (gid: i64)
        ensures
            gid == match best_reset(self@.games, host) {
                Some(b) => b.0,
                None => match registered_pool_gid {
                    Some(g) => g,
                    None => 1,
                },
            },
    {
        let ghost s = self@.games;
        let mut best: Option<(i64, u8)> = None;
        let mut i: usize = 0;
        while i < self.games.len()
            invariant
                i <= self.games@.len(),
                s == games_view(self.games@),
                match best {
                    Some(b) => best_reset(s.subrange(0, i as int), host) == Some((b.0, b.1 as nat)),
                    None => best_reset(s.subrange(0, i as int), host) is None,
                },
            decreases self.games@.len() - i,
        {
            assert(s.subrange(0, i + 1).drop_last() =~= s.subrange(0, i as int));
            let g = &self.games[i];
            assert(s[i as int] == g@);
            if g.gid >= 10_000 && (g.host_persona == host || (g.is_standby && g.host_persona == 0)) {
                let score: u8 = (if str_chars(g.map_path.as_str()).len() > 0 {
                    4u8
                } else {
                    0u8
                }) + (if g.players.len() > 0 {
                    2u8
                } else {
                    0u8
                }) + (if g.is_standby {
                    1u8
                } else {
                    0u8
                });
                let better = match best {
                    Some(b) => score > b.1,
                    None => true,
                };
                if better {
                    best = Some((g.gid, score));
                }
            }
            i = i + 1;
        }
        assert(s.subrange(0, i as int) =~= s);
        match best {
            Some(b) => b.0,
            None => match registered_pool_gid {
                Some(g) => g,
                None => 1,
            },
        }
    }
}


/// `gid` back in the pool: standby, and bound to `dedicated` when it had no dedicated.
pub open spec fn reclaim_marked(r: RegistryView, gid: i64, dedicated: Option<u64>) -> RegistryView {
    match game_of(r.games, gid) {
        Some(g) => update_game(
            r,
            game_index(r.games, gid),
            GameView {
                is_standby: true,
                dedicated_session_id: if g.dedicated_session_id is None {
                    dedicated
                } else {
                    g.dedicated_session_id
                },
                ..g
            },
        ),
        None => r,
    }
}

/// `gid` with its human rows dropped and no host.
pub open spec fn humans_dropped(r: RegistryView, gid: i64) -> RegistryView {
    match game_of(r.games, gid) {
        Some(g) => update_game(
            r,
            game_index(r.games, gid),
            GameView { players: ai_only(g.players), host_persona: 0, ..g },
        ),
        None => r,
    }
}

impl GameRegistry {
    /// Marks `gid` as a standby row again after a reclaim.
    pub fn mark_reclaimed_standby(&mut self, gid: i64, dedicated: Option<u64>)
        ensures
            final(self)@ == reclaim_marked(old(self)@, gid, dedicated),
    {
        proof {
            use_type_invariant(&*self);
        }
        let i = match self.find_game(gid) {
            Some(i) => i,
            None => return,
        };
        let ghost before = self@.games;
        let mut g = self.take_game(i);
        g.is_standby = true;
        if g.dedicated_session_id.is_none() {
            g.dedicated_session_id = dedicated;
        }
        self.put_game(i, g, Ghost(before));
    }

    /// Drops the human rows of `gid` (and its host); whether the game exists.
    pub fn drop_humans(&mut self, gid: i64) -> (found: bool)
        ensures
            found == (game_of(old(self)@.games, gid) is Some),
            final(self)@ == humans_dropped(old(self)@, gid),
    {
        proof {
            use_type_invariant(&*self);
        }
        let i = match self.find_game(gid) {
            Some(i) => i,
            None => return false,
        };
        let ghost before = self@.games;
        let mut g = self.take_game(i);
        let mut players: Vec<CncPlayer> = Vec::new();
        std::mem::swap(&mut players, &mut g.players);
        g.players = ai_only_exec(players);
        g.host_persona = 0;
        self.put_game(i, g, Ghost(before));
        true
    }
}


/// The personas of the human rows, in roster order.
pub open spec fn human_personas(s: Seq<PlayerView>) -> Seq<i64>
    decreases s.len(),
{
    if s.len() == 0 {
        Seq::empty()
    } else if !s.last().is_ai {
        human_personas(s.drop_last()).push(s.last().persona_id)
    } else {
        human_personas(s.drop_last())
    }
}

impl GameRegistry {
    /// The UUID of game `gid`; a fresh random v4 UUID when there is no such game.
    pub fn game_uuid(&self, gid: i64) -> (s: String)
        ensures
            match game_of(self@.games, gid) {
                Some(g) => s@ == g.uuid,
                None => exists|u: Seq<u8>|
                    #![trigger uuid_v4_bytes(u)]
                    u.len() == 16 && s@ == uuid_text(uuid_v4_bytes(u)),
            },
    {
        match self.find_game(gid) {
            Some(i) => self.games[i].uuid.clone(),
            None => {
                let b = random_bytes16();
                assert(b@.len() == 16);
                uuid_v4_string(b)
            },
        }
    }

    /// Drops every game row; the rest of the registry stays.
    pub fn clear_all_games_for_test(&mut self)
        ensures
            final(self)@ == (RegistryView { games: Seq::<GameView>::empty(), ..old(self)@ }),
    {
        proof {
            use_type_invariant(&*self);
        }
        let v: Vec<CncGame> = Vec::new();
        assert(games_view(v@) =~= Seq::<GameView>::empty());
        self.games = v;
    }

    /// Whether `gid` has a row.
    pub fn contains_game(&self, gid: i64) -> (b: bool)
        ensures
            b == (game_of(self@.games, gid) is Some),
    {
        self.find_game(gid).is_some()
    }

    /// The human personas of `gid`, in roster order; `None` without the game.
    pub fn human_personas_of(&self, gid: i64) -> (r: Option<Vec<i64>>)
        ensures
            match game_of(self@.games, gid) {
                Some(g) => r matches Some(v) && v@ == human_personas(g.players),
                None => r is None,
            },
    {
        let i = match self.find_game(gid) {
            Some(i) => i,
            None => return None,
        };
        let ghost ps = self@.games[i as int].players;
        assert(ps == players_view(self.games@[i as int].players@));
        let mut v: Vec<i64> = Vec::new();
        let mut k: usize = 0;
        assert(ps.subrange(0, 0) =~= Seq::<PlayerView>::empty());
        while k < self.games[i].players.len()
            invariant
                i < self.games@.len(),
                ps == players_view(self.games@[i as int].players@),
                k <= ps.len(),
                v@ == human_personas(ps.subrange(0, k as int)),
            decreases ps.len() - k,
        {
            let ghost t = ps.subrange(0, k + 1);
            assert(t.drop_last() =~= ps.subrange(0, k as int));
            assert(t.last() == self.games@[i as int].players@[k as int]@);
            if !self.games[i].players[k].is_ai {
                v.push(self.games[i].players[k].persona_id);
            }
            k = k + 1;
        }
        assert(ps.subrange(0, k as int) =~= ps);
        Some(v)
    }
}


impl GameRegistry {
    /// The row of `gid`.
    pub fn get_game(&self, gid: i64) -> (r: Option<&CncGame>)
        ensures
            match r {
                Some(g) => game_of(self@.games, gid) == Some(g@),
                None => game_of(self@.games, gid) is None,
            },
    {
        match self.find_game(gid) {
            Some(i) => Some(&self.games[i]),
            None => None,
        }
    }

    /// How many games the registry holds.
    pub fn game_count(&self) -> (n: usize)
        ensures
            n == self@.games.len(),
    {
        self.games.len()
    }

    /// The `i`-th game, by increasing gid.
    pub fn game_at(&self, i: usize) -> (g: &CncGame)
        requires
            i < self@.games.len(),
        ensures
            g@ == self@.games[i as int],
    {
        &self.games[i]
    }
}

/// What recording lobby map `map_path` for `gid` leaves: the pending choice,
/// and the game row's map when there is one.
pub open spec fn map_path_set(r: RegistryView, gid: i64, map_path: Seq<char>) -> RegistryView {
    let r1 = RegistryView { pending_maps: r.pending_maps.push((gid, map_path, 0)), ..r };
    match game_of(r.games, gid) {
        Some(g) => update_game(r1, game_index(r.games, gid), GameView { map_path, ..g }),
        None => r1,
    }
}

/// What a ready toggle of `persona_id` in `gid` leaves (`before` to `after`,
/// `done` when a human row of that persona was found).
pub open spec fn ready_set(before: RegistryView, after: RegistryView, gid: i64, persona_id: i64, ready: bool, done: bool) -> bool {
    match game_of(before.games, gid) {
        Some(g) => {
            let k = first_player(g.players, persona_id);
            if k >= 0 && !g.players[k].is_ai {
                done && after == update_game(
                    before,
                    game_index(before.games, gid),
                    GameView { players: g.players.update(k, PlayerView { ready, ..g.players[k] }), ..g },
                )
            } else {
                !done && after == before
            }
        },
        None => !done && after == before,
    }
}

/// The registry once a pooled dedicated is assigned to `gid`: its one-shot
/// flags cleared and a fresh orchestration in place of any earlier one.
pub open spec fn orchestration_begun(r: RegistryView, gid: i64, client_session_id: u64, dedicated_session_id: u64) -> RegistryView {
    let r1 = RegistryView {
        pregame: r.pregame.remove(gid),
        ingame: r.ingame.remove(gid),
        game_ready: r.game_ready.remove(gid),
        ..r
    };
    RegistryView {
        orchestration: drop_orch(r1.orchestration, gid).push(new_orch(gid, client_session_id, Some(dedicated_session_id))),
        ..r1
    }
}

/// The registry once the orchestration of `gid` (if any) has its mesh marked
/// connected.
pub open spec fn orch_mesh_marked(r: RegistryView, gid: i64) -> RegistryView {
    match orch_of(r.orchestration, gid) {
        Some(o) => RegistryView {
            orchestration: drop_orch(r.orchestration, gid).push(OrchView { mesh_active_connected: true, ..o }),
            ..r
        },
        None => r,
    }
}

} // verus!
