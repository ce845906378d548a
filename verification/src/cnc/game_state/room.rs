//! Host settings of a game room (join password, match options) and the roster
//! that the lobby page shows.
use vstd::prelude::*;
use crate::cnc::dedicated_pool::{entry_of, DedicatedPool};
use crate::cnc::game_state::{
    auth_valid, destroyed, drop_auth, game_index, game_of, games_view, humans_ready, players_view, update_game,
    CncPlayer, GameRegistry, GameView, PlayerView, RegistryView,
};
use crate::cnc::game_state::lobby_attrs::effective_startpoint;
use crate::text::{chars_eq, chars_to_string, str_chars, trim, trim_vec};

verus! {

broadcast use vstd::string::group_string_axioms;

/// How long a correct join password authorises a persona, in seconds.
pub const JOIN_PASSWORD_AUTH_TTL_SECS: u64 = 120;

/// Only the host (or anyone, while the room has none) may change its settings.
pub open spec fn host_only(g: GameView, persona_id: i64) -> bool {
    persona_id > 0 && g.host_persona > 0 && persona_id != g.host_persona
}

/// The answer to a host settings change.
#[derive(Debug, Clone, Copy, PartialEq, Eq, Structural)]
pub enum SettingsChange {
    /// No game row for the gid.
    NotFound,
    /// The requester is not the room's host (`admin`).
    HostOnly { admin: i64 },
    /// The change went in.
    Applied,
}

pub open spec fn refused(r: RegistryView, gid: i64, persona_id: i64) -> Option<SettingsChange> {
    match game_of(r.games, gid) {
        None => Some(SettingsChange::NotFound),
        Some(g) => if host_only(g, persona_id) {
            Some(SettingsChange::HostOnly { admin: g.host_persona })
        } else {
            None
        },
    }
}

/// The room with password `pw` (trimmed; empty means none); join
/// authorisations of the room go with an emptied password.
pub open spec fn password_set(r: RegistryView, gid: i64, pw: Seq<char>) -> RegistryView {
    let g = game_of(r.games, gid)->Some_0;
    let r1 = update_game(r, game_index(r.games, gid), GameView { password: trim(pw), ..g });
    if trim(pw).len() == 0 {
        RegistryView { join_auth: drop_auth(r1.join_auth, gid), ..r1 }
    } else {
        r1
    }
}

/// The five match options of a room; the defaults without one.
pub open spec fn options_of(r: RegistryView, gid: i64) -> (bool, bool, bool, bool, bool) {
    match game_of(r.games, gid) {
        Some(g) => (
            g.enable_special_abilities,
            g.enable_tech_tree,
            g.enable_oil_economy,
            g.enable_infinite_resource_centers,
            g.enable_unlock_full_faction_roster,
        ),
        None => (true, true, false, false, false),
    }
}

pub open spec fn opt_or(v: Option<bool>, d: bool) -> bool {
    match v {
        Some(x) => x,
        None => d,
    }
}

/// The room with the given options changed; the oil economy always goes off.
pub open spec fn options_set(
    r: RegistryView,
    gid: i64,
    special: Option<bool>,
    tech: Option<bool>,
    infinite: Option<bool>,
    full_roster: Option<bool>,
) -> RegistryView {
    let g = game_of(r.games, gid)->Some_0;
    update_game(
        r,
        game_index(r.games, gid),
        GameView {
            enable_special_abilities: opt_or(special, g.enable_special_abilities),
            enable_tech_tree: opt_or(tech, g.enable_tech_tree),
            enable_oil_economy: false,
            enable_infinite_resource_centers: opt_or(infinite, g.enable_infinite_resource_centers),
            enable_unlock_full_faction_roster: opt_or(full_roster, g.enable_unlock_full_faction_roster),
            ..g
        },
    )
}

/// The answer to a join password check.
#[derive(Debug, Clone, Copy, PartialEq, Eq, Structural)]
pub enum PasswordCheck {
    NotFound,
    /// The room has no password: anyone may join.
    Open,
    Wrong,
    /// The password matches; a positive persona is authorised for a while.
    Authorized,
}

/// The join authorisations without those expired at `now`.
pub open spec fn unexpired(s: Seq<(i64, i64, u64)>, now: u64) -> Seq<(i64, i64, u64)>
    decreases s.len(),
{
    if s.len() == 0 {
        s
    } else {
        let r = unexpired(s.drop_last(), now);
        if s.last().2 > now {
            r.push(s.last())
        } else {
            r
        }
    }
}

/// The authorisations once (gid, pid) is authorised until `until`: expired
/// ones dropped, an earlier one of the pair replaced.
pub open spec fn auth_granted(s: Seq<(i64, i64, u64)>, gid: i64, pid: i64, now: u64, until: u64) -> Seq<(i64, i64, u64)> {
    pair_dropped(unexpired(s, now), gid, pid).push((gid, pid, until))
}

pub open spec fn pair_dropped(s: Seq<(i64, i64, u64)>, gid: i64, pid: i64) -> Seq<(i64, i64, u64)>
    decreases s.len(),
{
    if s.len() == 0 {
        s
    } else {
        let r = pair_dropped(s.drop_last(), gid, pid);
        if !(s.last().0 == gid && s.last().1 == pid) {
            r.push(s.last())
        } else {
            r
        }
    }
}

/// One row of the lobby roster.
#[derive(Debug, Clone, PartialEq, Eq)]
pub struct RosterRow {
    pub pid: i64,
    pub name: String,
    pub slot: i32,
    pub team: i32,
    pub startpoint: i32,
    pub is_ai: bool,
    /// Ready, or an AI, or the host.
    pub ready: bool,
    pub is_host: bool,
}

pub struct RosterRowView {
    pub pid: i64,
    pub name: Seq<char>,
    pub slot: i32,
    pub team: i32,
    pub startpoint: i32,
    pub is_ai: bool,
    pub ready: bool,
    pub is_host: bool,
}

impl View for RosterRow {
    type V = RosterRowView;

    open spec fn view(&self) -> RosterRowView {
        RosterRowView {
            pid: self.pid,
            name: self.name@,
            slot: self.slot,
            team: self.team,
            startpoint: self.startpoint,
            is_ai: self.is_ai,
            ready: self.ready,
            is_host: self.is_host,
        }
    }
}

pub open spec fn roster_rows_view(v: Seq<RosterRow>) -> Seq<RosterRowView> {
    v.map_values(|x: RosterRow| x@)
}

pub open spec fn roster_row(r: RegistryView, gid: i64, host: i64, p: PlayerView) -> RosterRowView {
    let is_host = p.persona_id == host && host != 0;
    RosterRowView {
        pid: p.persona_id,
        name: p.display_name,
        slot: p.slot,
        team: p.team,
        startpoint: effective_startpoint(r.lobby_attrs, gid, p),
        is_ai: p.is_ai,
        ready: p.ready || p.is_ai || is_host,
        is_host,
    }
}

/// The five match options of a room.
#[derive(Debug, Clone, Copy, PartialEq, Eq, Structural)]
pub struct MatchOptions {
    pub special_abilities: bool,
    pub tech_tree: bool,
    pub oil_economy: bool,
    pub infinite_resource_centers: bool,
    pub unlock_full_faction_roster: bool,
}

/// What the lobby page shows of a room.
#[derive(Debug, Clone, PartialEq, Eq)]
pub enum LobbyRoster {
    /// No room; `server_lost` when its server was reported lost.
    Missing { server_lost: bool },
    /// The room's dedicated has left the pool: the room is gone now.
    ServerLost,
    Room {
        admin: i64,
        is_standby: bool,
        password_protected: bool,
        options: MatchOptions,
        all_ready: bool,
        players: Vec<RosterRow>,
    },
}

impl LobbyRoster {
    /// The line shown with the roster.
    pub fn message(&self) -> (m: &'static str)
        ensures
            m@ == match self {
                LobbyRoster::Missing { server_lost } => if *server_lost {
                    "Server connection lost."@
                } else {
                    ""@
                },
                LobbyRoster::ServerLost => "Server connection lost."@,
                LobbyRoster::Room { .. } => ""@,
            },
    {
        match self {
            LobbyRoster::Missing { server_lost } => if *server_lost {
                "Server connection lost."
            } else {
                ""
            },
            LobbyRoster::ServerLost => "Server connection lost.",
            LobbyRoster::Room { .. } => "",
        }
    }
}

impl GameRegistry {
    fn settings_refusal(&self, gid: i64, persona_id: i64) -> (r: Option<SettingsChange>)
        ensures
            r == refused(self@, gid, persona_id),
    {
        match self.get_game(gid) {
            None => Some(SettingsChange::NotFound),
            Some(g) => if persona_id > 0 && g.host_persona > 0 && persona_id != g.host_persona {
                Some(SettingsChange::HostOnly { admin: g.host_persona })
            } else {
                None
            },
        }
    }

    /// The host sets the join password of room `gid` (see `password_set`).
    pub fn set_game_password(&mut self, gid: i64, persona_id: i64, password: &str) -> (r: SettingsChange)
        ensures
            password_changed(old(self)@, final(self)@, gid, persona_id, password@, r),
    {
        proof {
            use_type_invariant(&*self);
        }
        match self.settings_refusal(gid, persona_id) {
            Some(x) => return x,
            None => {},
        }
        let i = self.find_game(gid).unwrap();
        let ghost before = self@.games;
        let t = trim_vec(&str_chars(password));
        let empty = t.len() == 0;
        let mut g = self.take_game(i);
        g.password = chars_to_string(&t);
        self.put_game(i, g, Ghost(before));
        if empty {
            self.clear_join_auth_for_gid(gid);
        }
        SettingsChange::Applied
    }

    /// The host changes match options of room `gid` (see `options_set`); the
    /// oil economy is accepted and ignored.
    pub fn set_match_options(
        &mut self,
        gid: i64,
        persona_id: i64,
        enable_special_abilities: Option<bool>,
        enable_tech_tree: Option<bool>,
        enable_oil_economy: Option<bool>,
        enable_infinite_resource_centers: Option<bool>,
        enable_unlock_full_faction_roster: Option<bool>,
    ) -> (r: SettingsChange)
        ensures
            match refused(old(self)@, gid, persona_id) {
                Some(x) => r == x && final(self)@ == old(self)@,
                None => r == SettingsChange::Applied && final(self)@ == options_set(
                    old(self)@,
                    gid,
                    enable_special_abilities,
                    enable_tech_tree,
                    enable_infinite_resource_centers,
                    enable_unlock_full_faction_roster,
                ),
            },
    {
        proof {
            use_type_invariant(&*self);
        }
        match self.settings_refusal(gid, persona_id) {
            Some(x) => return x,
            None => {},
        }
        let _ = enable_oil_economy;
        let i = self.find_game(gid).unwrap();
        let ghost before = self@.games;
        let mut g = self.take_game(i);
        if let Some(v) = enable_special_abilities {
            g.enable_special_abilities = v;
        }
        if let Some(v) = enable_tech_tree {
            g.enable_tech_tree = v;
        }
        g.enable_oil_economy = false;
        if let Some(v) = enable_infinite_resource_centers {
            g.enable_infinite_resource_centers = v;
        }
        if let Some(v) = enable_unlock_full_faction_roster {
            g.enable_unlock_full_faction_roster = v;
        }
        self.put_game(i, g, Ghost(before));
        SettingsChange::Applied
    }

    fn grant_auth_at(&mut self, gid: i64, pid: i64, now: u64)
        requires
            now <= u64::MAX - JOIN_PASSWORD_AUTH_TTL_SECS,
        ensures
            final(self)@ == (RegistryView {
                join_auth: auth_granted(old(self)@.join_auth, gid, pid, now, (now + JOIN_PASSWORD_AUTH_TTL_SECS) as u64),
                ..old(self)@
            }),
    {
        proof {
            use_type_invariant(&*self);
        }
        let ghost s = self.join_auth@;
        let mut kept: Vec<(i64, i64, u64)> = Vec::new();
        let mut i: usize = 0;
        while i < self.join_auth.len()
            invariant
                i <= self.join_auth@.len(),
                s == self.join_auth@,
                kept@ == pair_dropped(unexpired(s.subrange(0, i as int), now), gid, pid),
            decreases self.join_auth@.len() - i,
        {
            let ghost t = s.subrange(0, i + 1);
            assert(t.drop_last() =~= s.subrange(0, i as int));
            let a = self.join_auth[i];
            if a.2 > now {
                let ghost u = unexpired(s.subrange(0, i as int), now);
                assert(unexpired(t, now) == u.push(a));
                assert(u.push(a).drop_last() =~= u);
                if !(a.0 == gid && a.1 == pid) {
                    kept.push(a);
                }
            }
            i = i + 1;
        }
        assert(s.subrange(0, i as int) =~= s);
        kept.push((gid, pid, now + JOIN_PASSWORD_AUTH_TTL_SECS));
        self.join_auth = kept;
    }

    /// Checks a join password for room `gid`; a match authorises a positive
    /// persona until `now` plus the authorisation time.
    pub fn verify_game_password(&mut self, gid: i64, persona_id: i64, password: &str, now: u64) -> (r:
        PasswordCheck)
        requires
            now <= u64::MAX - JOIN_PASSWORD_AUTH_TTL_SECS,
        ensures
            password_checked(old(self)@, final(self)@, gid, persona_id, password@, now, r),
    {
        let expected = match self.get_game(gid) {
            None => return PasswordCheck::NotFound,
            Some(g) => str_chars(g.password.as_str()),
        };
        if expected.len() == 0 {
            return PasswordCheck::Open;
        }
        let given = trim_vec(&str_chars(password));
        if !chars_eq(&given, &expected) {
            return PasswordCheck::Wrong;
        }
        if persona_id > 0 {
            self.grant_auth_at(gid, persona_id, now);
        }
        PasswordCheck::Authorized
    }

    fn roster_rows(&self, gid: i64, g: &crate::cnc::game_state::CncGame) -> (v: Vec<RosterRow>)
        ensures
            roster_rows_view(v@) == g@.players.map_values(|p: PlayerView| roster_row(self@, gid, g.host_persona, p)),
    {
        let host = g.host_persona;
        let ghost ps = players_view(g.players@);
        assert(ps == g@.players);
        let mut v: Vec<RosterRow> = Vec::new();
        let mut k: usize = 0;
        while k < g.players.len()
            invariant
                k <= ps.len(),
                ps == players_view(g.players@),
                host == g.host_persona,
                roster_rows_view(v@) == ps.subrange(0, k as int).map_values(
                    |p: PlayerView| roster_row(self@, gid, host, p),
                ),
            decreases ps.len() - k,
        {
            let p = &g.players[k];
            let ghost t = ps.subrange(0, k + 1);
            assert(t.last() == p@);
            let is_host = p.persona_id == host && host != 0;
            let row = RosterRow {
                pid: p.persona_id,
                name: p.display_name.clone(),
                slot: p.slot,
                team: p.team,
                startpoint: self.effective_startpoint_for_player(gid, p),
                is_ai: p.is_ai,
                ready: p.ready || p.is_ai || is_host,
                is_host,
            };
            let ghost before = roster_rows_view(v@);
            let ghost rv = row@;
            v.push(row);
            assert(roster_rows_view(v@) =~= before.push(rv));
            assert forall|j: int| 0 <= j < t.len() implies #[trigger] roster_rows_view(v@)[j] == roster_row(
                self@,
                gid,
                host,
                t[j],
            ) by {
                if j < k {
                    assert(before[j] == ps.subrange(0, k as int).map_values(
                        |p: PlayerView| roster_row(self@, gid, host, p),
                    )[j]);
                    assert(t[j] == ps.subrange(0, k as int)[j]);
                }
            }
            assert(roster_rows_view(v@) =~= t.map_values(|p: PlayerView| roster_row(self@, gid, host, p)));
            k = k + 1;
        }
        assert(ps.subrange(0, k as int) =~= ps);
        v
    }
}

/// What the lobby page is shown of room `gid`, and what that leaves: a room
/// whose dedicated has left the pool gets its lost note at `now` and is destroyed.
pub open spec fn roster_outcome(r: RegistryView, pool_entries: Seq<crate::cnc::dedicated_pool::EntryView>, gid: i64, now: u64) -> RegistryView {
    match game_of(r.games, gid) {
        Some(g) => match g.dedicated_session_id {
            Some(sid) => if entry_of(pool_entries, sid) is None {
                destroyed(
                    if gid > 0 {
                        RegistryView { server_lost: r.server_lost.push((gid, now)), ..r }
                    } else {
                        r
                    },
                    gid,
                )
            } else {
                r
            },
            None => r,
        },
        None => r,
    }
}

/// The lobby page's roster of room `gid` (see `LobbyRoster` and `roster_outcome`).
pub fn lobby_roster(reg: &mut GameRegistry, pool: &DedicatedPool, gid: i64, now: u64) -> (out: LobbyRoster)
    ensures
        final(reg)@ == roster_outcome(old(reg)@, pool@.entries, gid, now),
        match game_of(old(reg)@.games, gid) {
            None => out == LobbyRoster::Missing {
                server_lost: exists|k: int|
                    0 <= k < old(reg)@.server_lost.len() && old(reg)@.server_lost[k].0 == gid,
            },
            Some(g) => if g.dedicated_session_id matches Some(sid) && entry_of(pool@.entries, sid) is None {
                out == LobbyRoster::ServerLost
            } else {
                out matches LobbyRoster::Room { admin, is_standby, password_protected, options, all_ready, players }
                    && admin == g.host_persona && is_standby == g.is_standby && password_protected == (
                g.password.len() > 0) && (
                options.special_abilities,
                options.tech_tree,
                options.oil_economy,
                options.infinite_resource_centers,
                options.unlock_full_faction_roster,
            ) == options_of(old(reg)@, gid) && all_ready == humans_ready(
                    g.players,
                    g.host_persona,
                ) && roster_rows_view(players@) == g.players.map_values(
                    |p: PlayerView| roster_row(old(reg)@, gid, g.host_persona, p),
                )
            },
        },
{
    let lost = match reg.get_game(gid) {
        None => {
            let server_lost = reg.server_lost(gid);
            return LobbyRoster::Missing { server_lost };
        },
        Some(g) => match g.dedicated_session_id {
            Some(sid) => pool.get_entry(sid).is_none(),
            None => false,
        },
    };
    if lost {
        reg.note_server_lost(gid, now);
        reg.destroy_game(gid);
        return LobbyRoster::ServerLost;
    }
    let all_ready = reg.all_humans_ready(gid);
    let o = reg.match_options(gid);
    let options = MatchOptions {
        special_abilities: o.0,
        tech_tree: o.1,
        oil_economy: o.2,
        infinite_resource_centers: o.3,
        unlock_full_faction_roster: o.4,
    };
    let g = reg.get_game(gid).unwrap();
    let players = reg.roster_rows(gid, g);
    LobbyRoster::Room {
        admin: g.host_persona,
        is_standby: g.is_standby,
        password_protected: str_chars(g.password.as_str()).len() > 0,
        options,
        all_ready,
        players,
    }
}

/// A join password admits a persona: right after a correct check the persona
/// is authorised for that room until the authorisation time has passed.
pub proof fn law_password_authorizes(s: Seq<(i64, i64, u64)>, gid: i64, pid: i64, now: u64, later: u64)
    requires
        now <= later < now + JOIN_PASSWORD_AUTH_TTL_SECS,
        now <= u64::MAX - JOIN_PASSWORD_AUTH_TTL_SECS,
    ensures
        auth_valid(auth_granted(s, gid, pid, now, (now + JOIN_PASSWORD_AUTH_TTL_SECS) as u64), gid, pid, later),
{
    let a = auth_granted(s, gid, pid, now, (now + JOIN_PASSWORD_AUTH_TTL_SECS) as u64);
    assert(a[a.len() - 1] == (gid, pid, (now + JOIN_PASSWORD_AUTH_TTL_SECS) as u64));
}

/// What checking join password `password` of `persona_id` for room `gid` at
/// `now` answers and leaves (`before` to `after`).
pub open spec fn password_checked(before: RegistryView, after: RegistryView, gid: i64, persona_id: i64, password: Seq<char>, now: u64, r: PasswordCheck) -> bool {
    match game_of(before.games, gid) {
        None => r == PasswordCheck::NotFound && after == before,
        Some(g) => if g.password.len() == 0 {
            r == PasswordCheck::Open && after == before
        } else if trim(password) != g.password {
            r == PasswordCheck::Wrong && after == before
        } else {
            r == PasswordCheck::Authorized && after == if persona_id > 0 {
                RegistryView {
                    join_auth: auth_granted(
                        before.join_auth,
                        gid,
                        persona_id,
                        now,
                        (now + JOIN_PASSWORD_AUTH_TTL_SECS) as u64,
                    ),
                    ..before
                }
            } else {
                before
            }
        },
    }
}

/// What the host setting join password `password` of room `gid` answers and
/// leaves (`before` to `after`).
pub open spec fn password_changed(before: RegistryView, after: RegistryView, gid: i64, persona_id: i64, password: Seq<char>, r: SettingsChange) -> bool {
    match refused(before, gid, persona_id) {
        Some(x) => r == x && after == before,
        None => r == SettingsChange::Applied && after == password_set(before, gid, password),
    }
}

} // verus!
