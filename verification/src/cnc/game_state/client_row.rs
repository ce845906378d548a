//! The roster row of a client joining a match: an existing row refreshed with
//! the lobby's writes, or a new one in the first free slot.
use vstd::prelude::*;
use crate::cnc::game_state::lobby_attrs::{
    blob_map_new, default_human_attribs_for_map, fallback_general, host_reset_gid_spec, human_defaults,
    join_seeded, map_path_spec, merged_row,
};
use crate::cnc::game_state::{
    attr_entries, blob_entries, first_player, first_player_exec, game_index, game_of, players_view,
    update_game, CncPlayer, GameRegistry, GameView, PlayerView, RegistryView, DEFAULT_MAP_PATH,
    PROS_STAT_ACTIVE_CONNECTING,
};
use crate::msgsystem::wire::str_to_string;
use crate::text::{chars_to_string, dec_int, push_dec_i64, push_str, str_chars};
use indexmap::IndexMap;

verus! {

broadcast use vstd::string::group_string_axioms;

/// Whether some row holds slot `slot`.
pub open spec fn slot_taken(s: Seq<PlayerView>, slot: int) -> bool {
    exists|i: int| 0 <= i < s.len() && s[i].slot == slot
}

/// The lowest of slots `k..8` that no row holds, else the row count.
pub open spec fn free_slot_from(s: Seq<PlayerView>, k: int) -> i32
    decreases 8 - k,
{
    if k >= 8 {
        s.len() as i32
    } else if !slot_taken(s, k) {
        k as i32
    } else {
        free_slot_from(s, k + 1)
    }
}

/// The slot a new row takes: the lowest of the eight that is free, else the
/// row count.
pub open spec fn next_free_slot(s: Seq<PlayerView>) -> i32 {
    free_slot_from(s, 0)
}

/// A new human row of `pid` in `slot` (named `Player<slot + 1>` when the name
/// is empty), with the human defaults of `map`.
pub open spec fn joined_row(pid: i64, name: Seq<char>, slot: i32, ready: bool, map: Seq<char>) -> PlayerView {
    PlayerView {
        persona_id: pid,
        display_name: if name.len() == 0 {
            "Player"@ + dec_int(slot as int + 1)
        } else {
            name
        },
        slot,
        team: 1,
        is_ai: false,
        ready,
        attribs: human_defaults(map, 1),
        custom_data: Seq::empty(),
        stat: PROS_STAT_ACTIVE_CONNECTING,
    }
}

/// The row of client `pid` in match `gid`, and the registry after it: none
/// without the game. The game takes `pid` as host when it has none. An
/// existing row gets the lobby's writes (over the gid's map, else the default
/// map); a new row, in the next free slot, starts from the human defaults of
/// the game's map (else the gid's map, else the default map) with the lobby's
/// writes over it. The host's row is ready.
pub open spec fn client_row(r: RegistryView, gid: i64, pid: i64, name: Seq<char>, fallback: Seq<char>) -> (
    Option<PlayerView>,
    RegistryView,
) {
    match game_of(r.games, gid) {
        None => (None, r),
        Some(g) => {
            let host = if g.host_persona == 0 {
                pid
            } else {
                g.host_persona
            };
            let mm = map_path_spec(r, gid);
            let k = first_player(g.players, pid);
            if k >= 0 {
                let m = if mm.len() == 0 {
                    DEFAULT_MAP_PATH@
                } else {
                    mm
                };
                let row0 = merged_row(r.lobby_attrs, gid, g.players[k], m, fallback);
                let row = if host == pid {
                    PlayerView { ready: true, ..row0 }
                } else {
                    row0
                };
                (
                    Some(row),
                    update_game(
                        r,
                        game_index(r.games, gid),
                        GameView { host_persona: host, players: g.players.update(k, row), ..g },
                    ),
                )
            } else {
                let slot = next_free_slot(g.players);
                let m = if g.map_path.len() > 0 {
                    g.map_path
                } else if mm.len() > 0 {
                    mm
                } else {
                    DEFAULT_MAP_PATH@
                };
                let row = merged_row(r.lobby_attrs, gid, joined_row(pid, name, slot, host == pid, m), m, fallback);
                (
                    Some(row),
                    update_game(
                        r,
                        game_index(r.games, gid),
                        GameView { host_persona: host, players: g.players.push(row), ..g },
                    ),
                )
            }
        },
    }
}

/// `after` and row `r` come from `before` through `mid`: the seeding of a
/// game that is not a pool standby, then the client's row.
pub open spec fn client_joined_via(
    before: RegistryView,
    mid: RegistryView,
    after: RegistryView,
    gid: i64,
    pid: i64,
    name: Seq<char>,
    host: i64,
    host_name: Seq<char>,
    registered_pool_gid: Option<i64>,
    r: Option<PlayerView>,
) -> bool {
    &&& (if (game_of(before.games, gid) matches Some(g) && g.is_standby) {
        mid == before
    } else {
        join_seeded(before, mid, gid, host, host_name, registered_pool_gid)
    })
    &&& (r, after) == client_row(
        mid,
        gid,
        pid,
        name,
        fallback_general(map_path_spec(mid, host_reset_gid_spec(mid, host, registered_pool_gid))),
    )
}

/// What a client joining match `gid` leaves: see `client_joined_via`, for the
/// game (and its UUID) that seeding makes.
pub open spec fn client_joined(
    before: RegistryView,
    after: RegistryView,
    gid: i64,
    pid: i64,
    name: Seq<char>,
    host: i64,
    host_name: Seq<char>,
    registered_pool_gid: Option<i64>,
    r: Option<PlayerView>,
) -> bool {
    exists|mid: RegistryView|
        #[trigger] client_joined_via(before, mid, after, gid, pid, name, host, host_name, registered_pool_gid, r)
}

pub open spec fn opt_player_view(r: Option<CncPlayer>) -> Option<PlayerView> {
    match r {
        Some(p) => Some(p@),
        None => None,
    }
}

/// `IndexMap::clone` of a row's custom data: the same pairs in the same order.
#[verifier::external_body]
fn blob_clone(m: &IndexMap<String, Vec<u8>>) -> (c: IndexMap<String, Vec<u8>>)
    ensures
        blob_entries(c) == blob_entries(*m),
{
    m.clone()
}

fn copy_player(p: &CncPlayer) -> (q: CncPlayer)
    ensures
        q@ == p@,
{
    CncPlayer {
        persona_id: p.persona_id,
        display_name: p.display_name.clone(),
        slot: p.slot,
        team: p.team,
        is_ai: p.is_ai,
        ready: p.ready,
        attribs: crate::cnc::game_state::lobby_attrs::attr_clone(&p.attribs),
        custom_data: blob_clone(&p.custom_data),
        stat: p.stat,
    }
}

fn slot_taken_exec(players: &Vec<CncPlayer>, slot: i32) -> (b: bool)
    ensures
        b == slot_taken(players_view(players@), slot as int),
{
    let ghost s = players_view(players@);
    let mut i: usize = 0;
    while i < players.len()
        invariant
            i <= players@.len(),
            s == players_view(players@),
            forall|j: int| 0 <= j < i ==> s[j].slot != slot,
        decreases players@.len() - i,
    {
        assert(s[i as int] == players@[i as int]@);
        if players[i].slot == slot {
            return true;
        }
        i = i + 1;
    }
    false
}

/// The slot a new row takes (see `next_free_slot`).
pub fn next_free_slot_exec(players: &Vec<CncPlayer>) -> (slot: i32)
    ensures
        slot == next_free_slot(players_view(players@)),
{
    let ghost s = players_view(players@);
    let mut k: i32 = 0;
    while k < 8
        invariant
            0 <= k <= 8,
            s == players_view(players@),
            free_slot_from(s, 0) == free_slot_from(s, k as int),
        decreases 8 - k,
    {
        if !slot_taken_exec(players, k) {
            return k;
        }
        k = k + 1;
    }
    players.len() as i32
}

impl GameRegistry {
    /// A new row of client `pid` in `slot`, with the lobby's writes over it.
    fn new_client_row(
        &self,
        gid: i64,
        pid: i64,
        display_name: &str,
        slot: i32,
        ready: bool,
        map: &str,
        fallback: &str,
    ) -> (p: CncPlayer)
        ensures
            p@ == merged_row(self@.lobby_attrs, gid, joined_row(pid, display_name@, slot, ready, map@), map@, fallback@),
    {
        let name = if str_chars(display_name).len() == 0 {
            let mut t: Vec<char> = Vec::new();
            push_str(&mut t, "Player");
            push_dec_i64(&mut t, slot as i64 + 1);
            assert(t@ =~= "Player"@ + dec_int(slot as int + 1));
            chars_to_string(&t)
        } else {
            str_to_string(display_name)
        };
        let mut p = CncPlayer {
            persona_id: pid,
            display_name: name,
            slot,
            team: 1,
            is_ai: false,
            ready,
            attribs: default_human_attribs_for_map(map, 1),
            custom_data: blob_map_new(),
            stat: PROS_STAT_ACTIVE_CONNECTING,
        };
        assert(p@ == joined_row(pid, display_name@, slot, ready, map@));
        self.merge_pending_into_player(gid, &mut p, map, fallback);
        p
    }

    /// The row of client `pid` (named `display_name`) in match `gid` (see
    /// `client_row`); `host` is this side's persona, for the general of an
    /// unknown faction.
    #[verifier::rlimit(80)]
    pub fn ensure_player_row(
        &mut self,
        gid: i64,
        pid: i64,
        display_name: &str,
        host: i64,
        registered_pool_gid: Option<i64>,
    ) -> (r: Option<CncPlayer>)
        ensures
            (opt_player_view(r), final(self)@) == client_row(
                old(self)@,
                gid,
                pid,
                display_name@,
                fallback_general(map_path_spec(old(self)@, host_reset_gid_spec(old(self)@, host, registered_pool_gid))),
            ),
    {
        proof {
            use_type_invariant(&*self);
        }
        let ghost r0 = self@;
        let fallback = self.general_fallback(host, registered_pool_gid);
        let mm = self.get_map_path(gid);
        assert(mm@ == map_path_spec(r0, gid));
        let i = match self.find_game(gid) {
            Some(i) => i,
            None => return None,
        };
        let ghost before = self@.games;
        let ghost g0 = before[i as int];
        let mut g = self.take_game(i);
        assert(self@.lobby_attrs == r0.lobby_attrs);
        if g.host_persona == 0 {
            g.host_persona = pid;
        }
        let mut players: Vec<CncPlayer> = Vec::new();
        std::mem::swap(&mut players, &mut g.players);
        let ghost ps = players_view(players@);
        assert(ps == g0.players);
        match first_player_exec(&players, pid) {
            Some(k) => {
                let map_merge: &str = if str_chars(mm.as_str()).len() == 0 {
                    DEFAULT_MAP_PATH
                } else {
                    mm.as_str()
                };
                let mut p = players.remove(k);
                assert(p@ == ps[k as int]);
                self.merge_pending_into_player(gid, &mut p, map_merge, fallback);
                if g.host_persona == pid {
                    p.ready = true;
                }
                let c = copy_player(&p);
                let ghost pv = p@;
                players.insert(k, p);
                assert(players_view(players@) =~= ps.update(k as int, pv));
                g.players = players;
                self.put_game(i, g, Ghost(before));
                Some(c)
            },
            None => {
                let slot = next_free_slot_exec(&players);
                let map_defaults: String = if str_chars(g.map_path.as_str()).len() > 0 {
                    g.map_path.clone()
                } else if str_chars(mm.as_str()).len() > 0 {
                    mm
                } else {
                    str_to_string(DEFAULT_MAP_PATH)
                };
                let p = self.new_client_row(gid, pid, display_name, slot, g.host_persona == pid, map_defaults.as_str(), fallback);
                let c = copy_player(&p);
                let ghost pv = p@;
                players.push(p);
                assert(players_view(players@) =~= ps.push(pv));
                g.players = players;
                self.put_game(i, g, Ghost(before));
                Some(c)
            },
        }
    }

    /// A client joining match `gid`: a game that is not a pool standby is
    /// seeded first (see `seed_from_join`, `host_name` naming its host), then
    /// the client's row is made (see `ensure_player_row`).
    pub fn ensure_client_player(
        &mut self,
        gid: i64,
        pid: i64,
        display_name: &str,
        host: i64,
        host_name: &str,
        registered_pool_gid: Option<i64>,
    ) -> (r: Option<CncPlayer>)
        ensures
            client_joined(old(self)@, final(self)@, gid, pid, display_name@, host, host_name@, registered_pool_gid, opt_player_view(r)),
    {
        if !self.is_standby_game(gid) {
            self.seed_from_join(gid, host, host_name, registered_pool_gid);
        }
        let ghost mid = self@;
        let r = self.ensure_player_row(gid, pid, display_name, host, registered_pool_gid);
        assert(client_joined_via(old(self)@, mid, self@, gid, pid, display_name@, host, host_name@, registered_pool_gid, opt_player_view(r)));
        assert((opt_player_view(r), self@) == client_row(
            mid,
            gid,
            pid,
            display_name@,
            fallback_general(map_path_spec(mid, host_reset_gid_spec(mid, host, registered_pool_gid))),
        ));
        r
    }
}

} // verus!
