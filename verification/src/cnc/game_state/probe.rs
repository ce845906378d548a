//! The player probe: what a lobby's map, roster and pending writes hold, and
//! which of them would make a CreateGame roster unusable.
use vstd::prelude::*;
use crate::cnc::game_state::{
    attr_entries, attr_get, attr_value, game_of, lobby_attrs_view, players_view, CncPlayer, GamePhase,
    GameRegistry, LobbyAttrsView, PlayerView, RegistryView, PROS_STAT_ACTIVE_CONNECTING,
};
use crate::cnc::game_state::lobby_attrs::{attr_pairs, map_path_spec, pairs_view, parsed_i32};
use crate::msgsystem::wire::str_to_string;
use crate::text::{chars_to_string, dec_int, parse_i32, push_dec_i64, push_str, str_chars};

verus! {

broadcast use vstd::string::group_string_axioms;

/// One roster row as the probe reads it.
#[derive(Debug)]
pub struct ProbePlayer {
    pub persona_id: i64,
    pub name: String,
    pub slot: i32,
    pub team: i32,
    pub startpoint: i64,
    pub faction: String,
    pub general: String,
    pub is_ai: bool,
    pub stat: i32,
    /// The row has reached the connecting state.
    pub spawned_hint: bool,
    pub ok: bool,
    pub notes: Vec<String>,
}

pub struct ProbePlayerView {
    pub persona_id: i64,
    pub name: Seq<char>,
    pub slot: i32,
    pub team: i32,
    pub startpoint: int,
    pub faction: Seq<char>,
    pub general: Seq<char>,
    pub is_ai: bool,
    pub stat: i32,
    pub spawned_hint: bool,
    pub ok: bool,
    pub notes: Seq<Seq<char>>,
}

pub open spec fn strings_view(v: Seq<String>) -> Seq<Seq<char>> {
    v.map_values(|s: String| s@)
}

impl View for ProbePlayer {
    type V = ProbePlayerView;

    open spec fn view(&self) -> ProbePlayerView {
        ProbePlayerView {
            persona_id: self.persona_id,
            name: self.name@,
            slot: self.slot,
            team: self.team,
            startpoint: self.startpoint as int,
            faction: self.faction@,
            general: self.general@,
            is_ai: self.is_ai,
            stat: self.stat,
            spawned_hint: self.spawned_hint,
            ok: self.ok,
            notes: strings_view(self.notes@),
        }
    }
}

/// The probe of one gid.
#[derive(Debug)]
pub struct PlayerProbe {
    /// No issue, and a game row exists.
    pub ok: bool,
    pub gid: i64,
    pub map_path: String,
    pub phase: GamePhase,
    pub enable_special_abilities: bool,
    pub enable_tech_tree: bool,
    pub enable_oil_economy: bool,
    pub enable_infinite_resource_centers: bool,
    pub enable_unlock_full_faction_roster: bool,
    pub players: Vec<ProbePlayer>,
    /// Lobby writes kept for the gid: persona and pairs, in first-write order.
    pub pending: Vec<(i64, Vec<(String, String)>)>,
    pub issues: Vec<String>,
}

pub struct PlayerProbeView {
    pub ok: bool,
    pub gid: i64,
    pub map_path: Seq<char>,
    pub phase: GamePhase,
    pub flags: (bool, bool, bool, bool, bool),
    pub players: Seq<ProbePlayerView>,
    pub pending: Seq<(i64, Seq<(Seq<char>, Seq<char>)>)>,
    pub issues: Seq<Seq<char>>,
}

pub open spec fn pending_view(v: Seq<(i64, Vec<(String, String)>)>) -> Seq<(i64, Seq<(Seq<char>, Seq<char>)>)> {
    v.map_values(|x: (i64, Vec<(String, String)>)| (x.0, pairs_view(x.1@)))
}

pub open spec fn probe_players_view(v: Seq<ProbePlayer>) -> Seq<ProbePlayerView> {
    v.map_values(|p: ProbePlayer| p@)
}

impl View for PlayerProbe {
    type V = PlayerProbeView;

    open spec fn view(&self) -> PlayerProbeView {
        PlayerProbeView {
            ok: self.ok,
            gid: self.gid,
            map_path: self.map_path@,
            phase: self.phase,
            flags: (
                self.enable_special_abilities,
                self.enable_tech_tree,
                self.enable_oil_economy,
                self.enable_infinite_resource_centers,
                self.enable_unlock_full_faction_roster,
            ),
            players: probe_players_view(self.players@),
            pending: pending_view(self.pending@),
            issues: strings_view(self.issues@),
        }
    }
}

// ---------------------------------------------------------------------------
// What the probe reports
// ---------------------------------------------------------------------------
pub open spec fn probe_faction(p: PlayerView) -> Seq<char> {
    match attr_value(p.attribs, "_faction"@) {
        Some(v) => v,
        None => "(missing)"@,
    }
}

/// `_team` when it reads as a number, else the row's team.
pub open spec fn probe_team(p: PlayerView) -> i32 {
    match attr_value(p.attribs, "_team"@) {
        Some(v) => match parsed_i32(v) {
            Some(n) => n,
            None => p.team,
        },
        None => p.team,
    }
}

/// `_startpoint` when it reads as a number, else the slot plus one.
pub open spec fn probe_start(p: PlayerView) -> int {
    match attr_value(p.attribs, "_startpoint"@) {
        Some(v) => match parsed_i32(v) {
            Some(n) => n as int,
            None => p.slot + 1,
        },
        None => p.slot + 1,
    }
}

pub open spec fn bad_faction(f: Seq<char>) -> bool {
    f == "(missing)"@ || f.len() == 0 || f == "None"@ || f == "0"@
}

pub open spec fn when(b: bool, s: Seq<char>) -> Seq<Seq<char>> {
    if b {
        seq![s]
    } else {
        Seq::empty()
    }
}

pub open spec fn probe_player(p: PlayerView) -> ProbePlayerView {
    let faction = probe_faction(p);
    let team = probe_team(p);
    let start = probe_start(p);
    ProbePlayerView {
        persona_id: p.persona_id,
        name: p.display_name,
        slot: p.slot,
        team,
        startpoint: start,
        faction,
        general: match attr_value(p.attribs, "_general"@) {
            Some(v) => v,
            None => "0"@,
        },
        is_ai: match attr_value(p.attribs, "_isai"@) {
            Some(v) => v == "1"@,
            None => p.is_ai,
        },
        stat: p.stat,
        spawned_hint: p.stat >= PROS_STAT_ACTIVE_CONNECTING,
        ok: !bad_faction(faction) && team >= 1 && start >= 0,
        notes: when(bad_faction(faction), "faction missing/None"@) + when(team < 1, "team < 1"@) + (if start
            < 0 {
            seq!["startpoint < 0"@]
        } else {
            when(start == 0, "startpoint random"@)
        }),
    }
}

/// The issues that one roster row raises.
pub open spec fn player_issues(p: PlayerView) -> Seq<Seq<char>> {
    let who = "player "@ + dec_int(p.persona_id as int);
    when(bad_faction(probe_faction(p)), who + " faction invalid"@) + when(
        probe_team(p) < 1,
        who + " team="@ + dec_int(probe_team(p) as int),
    ) + when(probe_start(p) < 0, who + " startpoint="@ + dec_int(probe_start(p)))
}

pub open spec fn roster_issues(ps: Seq<PlayerView>) -> Seq<Seq<char>>
    decreases ps.len(),
{
    if ps.len() == 0 {
        Seq::empty()
    } else {
        roster_issues(ps.drop_last()) + player_issues(ps.last())
    }
}

/// The lobby writes of `gid`, in first-write order.
pub open spec fn pending_rows(s: Seq<LobbyAttrsView>, gid: i64) -> Seq<(i64, Seq<(Seq<char>, Seq<char>)>)>
    decreases s.len(),
{
    if s.len() == 0 {
        Seq::empty()
    } else if s.last().gid == gid {
        pending_rows(s.drop_last(), gid).push((s.last().persona_id, s.last().attrs))
    } else {
        pending_rows(s.drop_last(), gid)
    }
}

pub open spec fn probe_spec(r: RegistryView, gid: i64) -> PlayerProbeView {
    let map = map_path_spec(r, gid);
    let game = game_of(r.games, gid);
    let issues = when(map.len() == 0, "map_path empty (lobby /cnc/select-map not applied)"@) + match game {
        Some(g) => roster_issues(g.players),
        None => seq!["no CncGame yet (attrs pending only)"@],
    };
    PlayerProbeView {
        ok: issues.len() == 0 && game is Some,
        gid,
        map_path: map,
        phase: match game {
            Some(g) => g.phase,
            None => GamePhase::Resetable,
        },
        flags: match game {
            Some(g) => (
                g.enable_special_abilities,
                g.enable_tech_tree,
                g.enable_oil_economy,
                g.enable_infinite_resource_centers,
                g.enable_unlock_full_faction_roster,
            ),
            None => (true, true, false, false, false),
        },
        players: match game {
            Some(g) => g.players.map_values(|p: PlayerView| probe_player(p)),
            None => Seq::empty(),
        },
        pending: pending_rows(r.lobby_attrs, gid),
        issues,
    }
}

// ---------------------------------------------------------------------------
// Computing it
// ---------------------------------------------------------------------------
fn attr_i32(p: &CncPlayer, key: &str) -> (r: Option<i32>)
    ensures
        r == match attr_value(p@.attribs, key@) {
            Some(v) => parsed_i32(v),
            None => None,
        },
{
    match attr_get(&p.attribs, key) {
        Some(v) => parse_i32(&str_chars(v.as_str())),
        None => None,
    }
}

fn attr_or(p: &CncPlayer, key: &str, default: &str) -> (s: String)
    ensures
        s@ == match attr_value(p@.attribs, key@) {
            Some(v) => v,
            None => default@,
        },
{
    match attr_get(&p.attribs, key) {
        Some(v) => v,
        None => str_to_string(default),
    }
}

fn who_string(pid: i64, tail: &str) -> (s: Vec<char>)
    ensures
        s@ == "player "@ + dec_int(pid as int) + tail@,
{
    let mut o: Vec<char> = Vec::new();
    push_str(&mut o, "player ");
    push_dec_i64(&mut o, pid);
    push_str(&mut o, tail);
    o
}

fn bad_faction_exec(f: &String) -> (b: bool)
    ensures
        b == bad_faction(f@),
{
    let fv = str_chars(f.as_str());
    crate::text::eq_lit(&fv, "(missing)") || fv.len() == 0 || crate::text::eq_lit(&fv, "None")
        || crate::text::eq_lit(&fv, "0")
}

fn probe_notes(bad: bool, team: i32, start: i64) -> (v: Vec<String>)
    ensures
        strings_view(v@) == when(bad, "faction missing/None"@) + when(team < 1, "team < 1"@) + (if start < 0 {
            seq!["startpoint < 0"@]
        } else {
            when(start == 0, "startpoint random"@)
        }),
{
    let mut notes: Vec<String> = Vec::new();
    if bad {
        notes.push(str_to_string("faction missing/None"));
    }
    if team < 1 {
        notes.push(str_to_string("team < 1"));
    }
    if start < 0 {
        notes.push(str_to_string("startpoint < 0"));
    } else if start == 0 {
        notes.push(str_to_string("startpoint random"));
    }
    assert(strings_view(notes@) =~= when(bad, "faction missing/None"@) + when(team < 1, "team < 1"@) + (if start
        < 0 {
        seq!["startpoint < 0"@]
    } else {
        when(start == 0, "startpoint random"@)
    }));
    notes
}

fn push_player_issues(issues: &mut Vec<String>, pid: i64, bad: bool, team: i32, start: i64)
    ensures
        strings_view(final(issues)@) == strings_view(old(issues)@) + when(bad, "player "@ + dec_int(pid as int)
            + " faction invalid"@) + when(team < 1, "player "@ + dec_int(pid as int) + " team="@ + dec_int(
            team as int,
        )) + when(start < 0, "player "@ + dec_int(pid as int) + " startpoint="@ + dec_int(start as int)),
{
    let ghost i0 = strings_view(issues@);
    if bad {
        issues.push(chars_to_string(&who_string(pid, " faction invalid")));
    }
    let ghost i1 = strings_view(issues@);
    assert(i1 =~= i0 + when(bad, "player "@ + dec_int(pid as int) + " faction invalid"@));
    if team < 1 {
        let mut w = who_string(pid, " team=");
        push_dec_i64(&mut w, team as i64);
        issues.push(chars_to_string(&w));
    }
    let ghost i2 = strings_view(issues@);
    assert(i2 =~= i1 + when(team < 1, "player "@ + dec_int(pid as int) + " team="@ + dec_int(team as int)));
    if start < 0 {
        let mut w = who_string(pid, " startpoint=");
        push_dec_i64(&mut w, start);
        issues.push(chars_to_string(&w));
    }
    assert(strings_view(issues@) =~= i2 + when(start < 0, "player "@ + dec_int(pid as int) + " startpoint="@
        + dec_int(start as int)));
}

fn probe_player_exec(p: &CncPlayer, issues: &mut Vec<String>) -> (r: ProbePlayer)
    ensures
        r@ == probe_player(p@),
        strings_view(final(issues)@) == strings_view(old(issues)@) + player_issues(p@),
{
    let faction = attr_or(p, "_faction", "(missing)");
    let team: i32 = match attr_i32(p, "_team") {
        Some(n) => n,
        None => p.team,
    };
    let start: i64 = match attr_i32(p, "_startpoint") {
        Some(n) => n as i64,
        None => p.slot as i64 + 1,
    };
    assert(start as int == probe_start(p@));
    assert(team == probe_team(p@));
    let general = attr_or(p, "_general", "0");
    let is_ai = match attr_get(&p.attribs, "_isai") {
        Some(v) => crate::text::eq_lit(&str_chars(v.as_str()), "1"),
        None => p.is_ai,
    };
    let bad = bad_faction_exec(&faction);
    push_player_issues(issues, p.persona_id, bad, team, start);
    let notes = probe_notes(bad, team, start);
    ProbePlayer {
        persona_id: p.persona_id,
        name: p.display_name.clone(),
        slot: p.slot,
        team,
        startpoint: start,
        faction,
        general,
        is_ai,
        stat: p.stat,
        spawned_hint: p.stat >= PROS_STAT_ACTIVE_CONNECTING,
        ok: !bad && team >= 1 && start >= 0,
        notes,
    }
}

impl GameRegistry {
    fn pending_rows_exec(&self, gid: i64) -> (v: Vec<(i64, Vec<(String, String)>)>)
        ensures
            pending_view(v@) == pending_rows(self@.lobby_attrs, gid),
    {
        let ghost s = self@.lobby_attrs;
        let mut v: Vec<(i64, Vec<(String, String)>)> = Vec::new();
        let mut i: usize = 0;
        while i < self.lobby_attrs.len()
            invariant
                i <= self.lobby_attrs@.len(),
                s == lobby_attrs_view(self.lobby_attrs@),
                pending_view(v@) == pending_rows(s.subrange(0, i as int), gid),
            decreases self.lobby_attrs@.len() - i,
        {
            let ghost t = s.subrange(0, i + 1);
            assert(t.drop_last() =~= s.subrange(0, i as int));
            assert(t.last() == self.lobby_attrs@[i as int]@);
            if self.lobby_attrs[i].gid == gid {
                let ghost before = pending_view(v@);
                let pairs = attr_pairs(&self.lobby_attrs[i].attrs);
                v.push((self.lobby_attrs[i].persona_id, pairs));
                assert(pending_view(v@) =~= before.push((self.lobby_attrs@[i as int].persona_id, pairs_view(pairs@))));
            }
            i = i + 1;
        }
        assert(s.subrange(0, i as int) =~= s);
        v
    }

    /// The probe of `gid`: its map, each roster row with the fields a
    /// CreateGame roster needs, the pending lobby writes, and the issues found.
    pub fn player_data_probe(&self, gid: i64) -> (p: PlayerProbe)
        ensures
            p@ == probe_spec(self@, gid),
    {
        let map = self.get_map_path(gid);
        let pending = self.pending_rows_exec(gid);
        let phase = self.get_phase(gid);
        let mut issues: Vec<String> = Vec::new();
        if str_chars(map.as_str()).len() == 0 {
            issues.push(str_to_string("map_path empty (lobby /cnc/select-map not applied)"));
        }
        let ghost issues0 = strings_view(issues@);
        assert(issues0 =~= when(map@.len() == 0, "map_path empty (lobby /cnc/select-map not applied)"@));
        let mut players: Vec<ProbePlayer> = Vec::new();
        let mut flags = (true, true, false, false, false);
        let mut found = false;
        match self.get_game(gid) {
            Some(g) => {
                found = true;
                flags = (
                    g.enable_special_abilities,
                    g.enable_tech_tree,
                    g.enable_oil_economy,
                    g.enable_infinite_resource_centers,
                    g.enable_unlock_full_faction_roster,
                );
                let ghost ps = players_view(g.players@);
                assert(ps == g@.players);
                let mut k: usize = 0;
                while k < g.players.len()
                    invariant
                        k <= ps.len(),
                        ps == players_view(g.players@),
                        probe_players_view(players@) == ps.subrange(0, k as int).map_values(
                            |p: PlayerView| probe_player(p),
                        ),
                        strings_view(issues@) == issues0 + roster_issues(ps.subrange(0, k as int)),
                    decreases ps.len() - k,
                {
                    let ghost t = ps.subrange(0, k + 1);
                    assert(t.drop_last() =~= ps.subrange(0, k as int));
                    assert(t.last() == g.players@[k as int]@);
                    let ghost before = probe_players_view(players@);
                    let ghost ib = strings_view(issues@);
                    let row = probe_player_exec(&g.players[k], &mut issues);
                    let ghost rv = row@;
                    players.push(row);
                    assert(probe_players_view(players@) =~= before.push(rv));
                    assert(rv == probe_player(t[k as int]));
                    assert forall|j: int| 0 <= j < t.len() implies #[trigger] probe_players_view(players@)[j]
                        == probe_player(t[j]) by {
                        if j < k {
                            assert(before[j] == ps.subrange(0, k as int).map_values(|p: PlayerView| probe_player(p))[j]);
                            assert(t[j] == ps.subrange(0, k as int)[j]);
                        }
                    }
                    assert(probe_players_view(players@) =~= t.map_values(|p: PlayerView| probe_player(p)));
                    assert(strings_view(issues@) =~= issues0 + roster_issues(t));
                    k = k + 1;
                }
                assert(ps.subrange(0, k as int) =~= ps);
            },
            None => {
                issues.push(str_to_string("no CncGame yet (attrs pending only)"));
            },
        }
        let ok = issues.len() == 0 && found;
        let p = PlayerProbe {
            ok,
            gid,
            map_path: map,
            phase,
            enable_special_abilities: flags.0,
            enable_tech_tree: flags.1,
            enable_oil_economy: flags.2,
            enable_infinite_resource_centers: flags.3,
            enable_unlock_full_faction_roster: flags.4,
            players,
            pending,
            issues,
        };
        assert(p@.issues =~= probe_spec(self@, gid).issues);
        assert(p@.players =~= probe_spec(self@, gid).players);
        p
    }
}

} // verus!
