//! The server browser's game list: one row per live dedicated, from the match it
//! hosts when there is one, else from its pool entry.
use vstd::prelude::*;
use crate::cnc::dedicated_pool::{
    assignable, browser_name, ready_for_match, browser_server_name, entry_of, ev, is_assignable, msg_sys_port,
    opt_entry_view, prism_port_or, DedicatedPool, DedicatedPoolState, DedicatedServerEntry, EntryView,
    DEDICATED_PING_TCP_PORT,
};
use crate::cnc::game_state::{
    count_humans, destroyed_all, gids_of_dedicated, gsta, human_count, phase_label, players_view,
    CncGame, GamePhase, GameRegistry, GameView, RegistryView,
};
use crate::cnc::lobby::{name_for, name_for_exec, names_view};
use crate::msgsystem::wire::str_to_string;
use crate::text::{chars_range_to_string, last_index_of, rfind_char, str_chars};

verus! {

broadcast use vstd::string::group_string_axioms;

/// One row of the browser list.
#[derive(Debug)]
pub struct BrowserRow {
    pub gid: i64,
    pub name: String,
    /// The map's file name (after the last `/`).
    pub map: String,
    pub map_path: String,
    pub players: usize,
    pub humans: usize,
    pub max_players: i32,
    pub admin: i64,
    pub phase: String,
    pub phase_code: i32,
    pub joinable: bool,
    pub dedicated_session_id: u64,
    /// Where to ping the dedicated.
    pub ping_host: Option<String>,
    pub ping_port: u16,
    pub is_standby: bool,
    pub password_protected: bool,
    /// The lobby attribute that carries a join password (rows of matches only).
    pub password_attr: Option<String>,
}

pub struct BrowserRowView {
    pub gid: i64,
    pub name: Seq<char>,
    pub map: Seq<char>,
    pub map_path: Seq<char>,
    pub players: nat,
    pub humans: nat,
    pub max_players: i32,
    pub admin: i64,
    pub phase: Seq<char>,
    pub phase_code: i32,
    pub joinable: bool,
    pub dedicated_session_id: u64,
    pub ping_host: Option<Seq<char>>,
    pub ping_port: u16,
    pub is_standby: bool,
    pub password_protected: bool,
    pub password_attr: Option<Seq<char>>,
}

pub open spec fn opt_chars(v: Option<String>) -> Option<Seq<char>> {
    match v {
        Some(s) => Some(s@),
        None => None,
    }
}

impl View for BrowserRow {
    type V = BrowserRowView;

    open spec fn view(&self) -> BrowserRowView {
        BrowserRowView {
            gid: self.gid,
            name: self.name@,
            map: self.map@,
            map_path: self.map_path@,
            players: self.players as nat,
            humans: self.humans as nat,
            max_players: self.max_players,
            admin: self.admin,
            phase: self.phase@,
            phase_code: self.phase_code,
            joinable: self.joinable,
            dedicated_session_id: self.dedicated_session_id,
            ping_host: opt_chars(self.ping_host),
            ping_port: self.ping_port,
            is_standby: self.is_standby,
            password_protected: self.password_protected,
            password_attr: opt_chars(self.password_attr),
        }
    }
}

pub open spec fn rows_view(s: Seq<BrowserRow>) -> Seq<BrowserRowView> {
    s.map_values(|r: BrowserRow| r@)
}

impl BrowserRow {
    /// `"standby"` for standby rows, `"game"` for matches.
    pub fn kind(&self) -> (k: &'static str)
        ensures
            k@ == (if self.is_standby {
                "standby"@
            } else {
                "game"@
            }),
    {
        if self.is_standby {
            "standby"
        } else {
            "game"
        }
    }
}

// ---------------------------------------------------------------------------
// What the list holds
// ---------------------------------------------------------------------------
/// The dedicated of session `sid` is in the pool and has registered as creator.
pub open spec fn alive(es: Seq<EntryView>, sid: u64) -> bool {
    match entry_of(es, sid) {
        Some(e) => e.creator_registered,
        None => false,
    }
}

/// Some game of `gs` is hosted by `sid`.
pub open spec fn sid_seen(gs: Seq<GameView>, sid: u64) -> bool {
    exists|j: int| 0 <= j < gs.len() && #[trigger] gs[j].dedicated_session_id == Some(sid)
}

/// `sid` already has a row from a game of `gs`.
pub open spec fn listed(gs: Seq<GameView>, es: Seq<EntryView>, sid: u64) -> bool {
    alive(es, sid) && sid_seen(gs, sid)
}

/// What follows the last `/` of the map path; `Standby` or `Unknown` when that is empty.
pub open spec fn map_leaf(g: GameView) -> Seq<char> {
    let p = g.map_path;
    let leaf = p.subrange(last_index_of(p, '/') + 1, p.len() as int);
    if leaf.len() > 0 {
        leaf
    } else if g.is_standby {
        "Standby"@
    } else {
        "Unknown"@
    }
}

/// A match can be joined from the browser in these phases.
pub open spec fn joinable_phase(p: GamePhase) -> bool {
    p == GamePhase::PreGame || p == GamePhase::Resetable || p == GamePhase::InGame
}

/// The row of game `g`, hosted by pool entry `e`. `names` gives the peer name
/// of a session for the browser name, `ips` the IP its peer address reads as.
pub open spec fn game_row(
    g: GameView,
    e: EntryView,
    names: Seq<(u64, Seq<char>)>,
    ips: Seq<(u64, Seq<char>)>,
    now: u64,
) -> BrowserRowView {
    let sid = e.blaze_session_id;
    let humans = human_count(g.players);
    let idle = g.is_standby || humans == 0;
    let recycling = e.creator_registered && e.state == DedicatedPoolState::Recycling;
    BrowserRowView {
        gid: g.gid,
        name: if idle {
            browser_name(e, name_for(names, sid))
        } else {
            g.name
        },
        map: map_leaf(g),
        map_path: g.map_path,
        players: g.players.len(),
        humans,
        max_players: g.max_players,
        admin: g.host_persona,
        phase: if recycling {
            "Recycling"@
        } else if idle {
            "Standby"@
        } else {
            phase_label(g.phase)
        },
        phase_code: gsta(g.phase),
        joinable: if recycling {
            false
        } else if idle {
            assignable(e, now)
        } else {
            joinable_phase(g.phase)
        },
        dedicated_session_id: sid,
        ping_host: Some(
            match name_for(ips, sid) {
                Some(ip) => ip,
                None => e.peer,
            },
        ),
        ping_port: prism_port_or(e.msg_sys_tcp_port, DEDICATED_PING_TCP_PORT),
        is_standby: g.is_standby,
        password_protected: g.password.len() > 0,
        password_attr: Some("_password"@),
    }
}

/// Who may join a browser row: nobody while its dedicated is recycling; for an
/// idle row (standby or no humans) anyone exactly when its dedicated is ready
/// for a match; for a live match exactly in a lobby (PreGame), a resetable
/// match or a running one, never after the game. A live lobby reads "Lobby".
pub proof fn law_row_joinable(
    g: GameView,
    e: EntryView,
    names: Seq<(u64, Seq<char>)>,
    ips: Seq<(u64, Seq<char>)>,
    now: u64,
)
    ensures
        ({
            let r = game_row(g, e, names, ips, now);
            let recycling = e.creator_registered && e.state == DedicatedPoolState::Recycling;
            let live = !g.is_standby && human_count(g.players) > 0;
            &&& recycling ==> !r.joinable
            &&& !recycling && !live ==> (r.joinable <==> ready_for_match(e, now))
            &&& !recycling && live ==> (r.joinable <==> (g.phase == GamePhase::PreGame || g.phase
                == GamePhase::Resetable || g.phase == GamePhase::InGame))
            &&& !recycling && live ==> (r.joinable <==> g.phase != GamePhase::PostGame)
            &&& !recycling && live && g.phase == GamePhase::PreGame ==> r.phase == "Lobby"@ && r.joinable
        }),
{
}

/// A pool row (a dedicated with no game row) is a standby with no players,
/// joinable exactly when its dedicated is not recycling and holds a positive gid.
pub proof fn law_pool_row(e: EntryView, names: Seq<(u64, Seq<char>)>, ips: Seq<(u64, Seq<char>)>)
    ensures
        ({
            let r = pool_row(e, names, ips);
            &&& r.is_standby && r.players == 0 && r.humans == 0
            &&& r.joinable <==> (e.state != DedicatedPoolState::Recycling && (e.current_gid matches Some(g) && g > 0))
            &&& r.dedicated_session_id == e.blaze_session_id
        }),
{
}

/// Rows of the games `gs` (by gid): a game gets one when its dedicated is alive
/// and no earlier game is hosted by the same dedicated.
pub open spec fn game_rows(
    gs: Seq<GameView>,
    es: Seq<EntryView>,
    names: Seq<(u64, Seq<char>)>,
    ips: Seq<(u64, Seq<char>)>,
    now: u64,
) -> Seq<BrowserRowView>
    decreases gs.len(),
{
    if gs.len() == 0 {
        Seq::empty()
    } else {
        let prev = game_rows(gs.drop_last(), es, names, ips, now);
        let g = gs.last();
        match g.dedicated_session_id {
            Some(sid) => if alive(es, sid) && !sid_seen(gs.drop_last(), sid) {
                prev.push(game_row(g, entry_of(es, sid)->Some_0, names, ips, now))
            } else {
                prev
            },
            None => prev,
        }
    }
}

/// A pool entry is shown on its own when registered and idle, registered or recycling.
pub open spec fn shown_in_pool(e: EntryView) -> bool {
    e.creator_registered && (e.state == DedicatedPoolState::Idle || e.state
        == DedicatedPoolState::CreatorRegistered || e.state == DedicatedPoolState::Recycling)
}

/// The row of a pool entry with no match listed.
pub open spec fn pool_row(
    e: EntryView,
    names: Seq<(u64, Seq<char>)>,
    ips: Seq<(u64, Seq<char>)>,
) -> BrowserRowView {
    let recycling = e.state == DedicatedPoolState::Recycling;
    let gid: i64 = match e.current_gid {
        Some(g) => g,
        None => 0,
    };
    BrowserRowView {
        gid,
        name: browser_name(e, name_for(names, e.blaze_session_id)),
        map: "Standby"@,
        map_path: match e.current_map {
            Some(m) => m,
            None => Seq::empty(),
        },
        players: 0,
        humans: 0,
        max_players: 8,
        admin: 0,
        phase: if recycling {
            "Recycling"@
        } else {
            "Standby"@
        },
        phase_code: 0,
        joinable: !recycling && gid > 0,
        dedicated_session_id: e.blaze_session_id,
        ping_host: name_for(ips, e.blaze_session_id),
        ping_port: prism_port_or(e.msg_sys_tcp_port, DEDICATED_PING_TCP_PORT),
        is_standby: true,
        password_protected: false,
        password_attr: None,
    }
}

/// Rows of the pool entries `fs` that no game row of `gs` covers.
pub open spec fn pool_rows(
    fs: Seq<EntryView>,
    gs: Seq<GameView>,
    es: Seq<EntryView>,
    names: Seq<(u64, Seq<char>)>,
    ips: Seq<(u64, Seq<char>)>,
) -> Seq<BrowserRowView>
    decreases fs.len(),
{
    if fs.len() == 0 {
        Seq::empty()
    } else {
        let prev = pool_rows(fs.drop_last(), gs, es, names, ips);
        let e = fs.last();
        if !listed(gs, es, e.blaze_session_id) && shown_in_pool(e) {
            prev.push(pool_row(e, names, ips))
        } else {
            prev
        }
    }
}

/// Dedicated sessions that games of `gs` name but the pool no longer holds, in
/// order of first mention.
pub open spec fn orphan_sids(gs: Seq<GameView>, es: Seq<EntryView>) -> Seq<u64>
    decreases gs.len(),
{
    if gs.len() == 0 {
        Seq::empty()
    } else {
        let prev = orphan_sids(gs.drop_last(), es);
        match gs.last().dedicated_session_id {
            Some(sid) => if entry_of(es, sid) is None && !prev.contains(sid) {
                prev.push(sid)
            } else {
                prev
            },
            None => prev,
        }
    }
}

/// The registry once every game of each session of `sids` is destroyed, session by session.
pub open spec fn purged(r: RegistryView, sids: Seq<u64>) -> RegistryView
    decreases sids.len(),
{
    if sids.len() == 0 {
        r
    } else {
        purged(destroyed_all(r, gids_of_dedicated(r.games, sids[0])), sids.drop_first())
    }
}

// ---------------------------------------------------------------------------
// Building the list
// ---------------------------------------------------------------------------
fn orphan_sids_exec(reg: &GameRegistry, pool: &DedicatedPool) -> (v: Vec<u64>)
    ensures
        v@ == orphan_sids(reg@.games, pool@.entries),
{
    let ghost gs = reg@.games;
    let mut v: Vec<u64> = Vec::new();
    let mut i: usize = 0;
    let n = reg.game_count();
    while i < n
        invariant
            n == gs.len(),
            gs == reg@.games,
            i <= n,
            v@ == orphan_sids(gs.subrange(0, i as int), pool@.entries),
        decreases n - i,
    {
        let g = reg.game_at(i);
        assert(gs.subrange(0, i + 1).drop_last() =~= gs.subrange(0, i as int));
        assert(gs.subrange(0, i + 1).last() == g@);
        match g.dedicated_session_id {
            Some(sid) => {
                let missing = pool.get_entry(sid).is_none();
                if missing && !crate::cnc::game_state::contains_u64(&v, sid) {
                    v.push(sid);
                }
            },
            None => {},
        }
        i = i + 1;
    }
    assert(gs.subrange(0, n as int) =~= gs);
    v
}

fn map_leaf_exec(g: &CncGame) -> (s: String)
    ensures
        s@ == map_leaf(g@),
{
    let p = str_chars(&g.map_path);
    let start: usize = match rfind_char(&p, '/') {
        Some(i) => if i < p.len() {
            i + 1
        } else {
            p.len()
        },
        None => 0,
    };
    if start < p.len() {
        chars_range_to_string(&p, start, p.len())
    } else if g.is_standby {
        str_to_string("Standby")
    } else {
        str_to_string("Unknown")
    }
}

fn game_row_exec(
    g: &CncGame,
    e: &DedicatedServerEntry,
    peer_names: &Vec<(u64, String)>,
    peer_ips: &Vec<(u64, String)>,
    now: u64,
) -> (r: BrowserRow)
    ensures
        r@ == game_row(g@, e@, names_view(peer_names@), names_view(peer_ips@), now),
{
    let sid = e.blaze_session_id;
    let humans = count_humans(&g.players);
    let idle = g.is_standby || humans == 0;
    let recycling = e.creator_registered && e.state == DedicatedPoolState::Recycling;
    let name = if idle {
        browser_server_name(e, name_for_exec(peer_names, sid))
    } else {
        g.name.clone()
    };
    let phase = if recycling {
        str_to_string("Recycling")
    } else if idle {
        str_to_string("Standby")
    } else {
        str_to_string(g.phase.label())
    };
    let joinable = if recycling {
        false
    } else if idle {
        is_assignable(e, now)
    } else {
        g.phase == GamePhase::PreGame || g.phase == GamePhase::Resetable || g.phase == GamePhase::InGame
    };
    let ping_host = match name_for_exec(peer_ips, sid) {
        Some(ip) => ip,
        None => e.peer.clone(),
    };
    proof {
        assert(g@.players == players_view(g.players@));
    }
    BrowserRow {
        gid: g.gid,
        name,
        map: map_leaf_exec(g),
        map_path: g.map_path.clone(),
        players: g.players.len(),
        humans,
        max_players: g.max_players,
        admin: g.host_persona,
        phase,
        phase_code: g.phase.as_gsta(),
        joinable,
        dedicated_session_id: sid,
        ping_host: Some(ping_host),
        ping_port: msg_sys_port(e),
        is_standby: g.is_standby,
        password_protected: str_chars(g.password.as_str()).len() > 0,
        password_attr: Some(str_to_string("_password")),
    }
}

fn pool_row_exec(e: &DedicatedServerEntry, peer_names: &Vec<(u64, String)>, peer_ips: &Vec<(u64, String)>) -> (r:
    BrowserRow)
    ensures
        r@ == pool_row(e@, names_view(peer_names@), names_view(peer_ips@)),
{
    let recycling = e.state == DedicatedPoolState::Recycling;
    let gid: i64 = match e.current_gid {
        Some(g) => g,
        None => 0,
    };
    let map_path = match &e.current_map {
        Some(m) => m.clone(),
        None => String::new(),
    };
    BrowserRow {
        gid,
        name: browser_server_name(e, name_for_exec(peer_names, e.blaze_session_id)),
        map: str_to_string("Standby"),
        map_path,
        players: 0,
        humans: 0,
        max_players: 8,
        admin: 0,
        phase: if recycling {
            str_to_string("Recycling")
        } else {
            str_to_string("Standby")
        },
        phase_code: 0,
        joinable: !recycling && gid > 0,
        dedicated_session_id: e.blaze_session_id,
        ping_host: name_for_exec(peer_ips, e.blaze_session_id),
        ping_port: msg_sys_port(e),
        is_standby: true,
        password_protected: false,
        password_attr: None,
    }
}

/// The browser list. Games whose dedicated has left the pool are destroyed
/// first; then come the rows of matches (by gid), then those of pool entries
/// that no match row covers (by session id). `peer_names` gives what a
/// session's peer address reads as for its browser name, `peer_ips` the IP of
/// that address where it parses.
pub fn browser_game_list(
    reg: &mut GameRegistry,
    pool: &DedicatedPool,
    peer_names: &Vec<(u64, String)>,
    peer_ips: &Vec<(u64, String)>,
    now: u64,
) -> (rows: Vec<BrowserRow>)
    ensures
        final(reg)@ == purged(old(reg)@, orphan_sids(old(reg)@.games, pool@.entries)),
        rows_view(rows@) == game_rows(
            final(reg)@.games,
            pool@.entries,
            names_view(peer_names@),
            names_view(peer_ips@),
            now,
        ) + pool_rows(
            pool@.entries,
            final(reg)@.games,
            pool@.entries,
            names_view(peer_names@),
            names_view(peer_ips@),
        ),
{
    let ghost names = names_view(peer_names@);
    let ghost ips = names_view(peer_ips@);
    let ghost es = pool@.entries;
    let ghost r0 = reg@;
    // Games of dedicateds that left the pool go first.
    let orphans = orphan_sids_exec(reg, pool);
    let mut k: usize = 0;
    assert(orphans@.subrange(0, orphans@.len() as int) =~= orphans@);
    while k < orphans.len()
        invariant
            k <= orphans@.len(),
            purged(r0, orphans@) == purged(reg@, orphans@.subrange(k as int, orphans@.len() as int)),
        decreases orphans@.len() - k,
    {
        let ghost before = reg@;
        let ghost tail = orphans@.subrange(k as int, orphans@.len() as int);
        assert(tail.drop_first() =~= orphans@.subrange(k + 1, orphans@.len() as int));
        let _ = reg.destroy_games_for_dedicated(orphans[k]);
        assert(reg@ == destroyed_all(before, gids_of_dedicated(before.games, tail[0])));
        k = k + 1;
    }
    assert(orphans@.subrange(k as int, orphans@.len() as int) =~= Seq::<u64>::empty());
    // Rows of matches.
    let ghost gs = reg@.games;
    let mut rows: Vec<BrowserRow> = Vec::new();
    let mut listed_sids: Vec<u64> = Vec::new();
    let n = reg.game_count();
    let mut i: usize = 0;
    while i < n
        invariant
            n == gs.len(),
            gs == reg@.games,
            es == pool@.entries,
            names == names_view(peer_names@),
            ips == names_view(peer_ips@),
            i <= n,
            rows_view(rows@) == game_rows(gs.subrange(0, i as int), es, names, ips, now),
            forall|x: u64| #[trigger] listed_sids@.contains(x) == listed(gs.subrange(0, i as int), es, x),
        decreases n - i,
    {
        let g = reg.game_at(i);
        let ghost pre = gs.subrange(0, i as int);
        let ghost post = gs.subrange(0, i + 1);
        assert(post.drop_last() =~= pre);
        assert(post.last() == g@);
        let ghost rows_before = rows@;
        let ghost listed_before = listed_sids@;
        let ghost mut pushed = false;
        match g.dedicated_session_id {
            Some(sid) => {
                let entry = pool.get_entry(sid);
                match entry {
                    Some(e) => {
                        assert(e@ == entry_of(es, sid)->Some_0);
                        if e.creator_registered {
                            if !crate::cnc::game_state::contains_u64(&listed_sids, sid) {
                                assert(!sid_seen(pre, sid));
                                let row = game_row_exec(g, &e, peer_names, peer_ips, now);
                                rows.push(row);
                                listed_sids.push(sid);
                                proof {
                                    pushed = true;
                                }
                                assert(rows_view(rows@) =~= rows_view(rows_before).push(row@));
                            } else {
                                assert(listed(pre, es, sid));
                            }
                        }
                    },
                    None => {},
                }
            },
            None => {},
        }
        proof {
            assert forall|x: u64| sid_seen(post, x) == (sid_seen(pre, x) || g@.dedicated_session_id == Some(x)) by {
                if sid_seen(post, x) && !sid_seen(pre, x) {
                    let j = choose|j: int| 0 <= j < post.len() && #[trigger] post[j].dedicated_session_id == Some(x);
                    if j < i {
                        assert(pre[j] == post[j]);
                    }
                }
                if sid_seen(pre, x) {
                    let j = choose|j: int| 0 <= j < pre.len() && #[trigger] pre[j].dedicated_session_id == Some(x);
                    assert(post[j] == pre[j]);
                }
                if g@.dedicated_session_id == Some(x) {
                    assert(post[i as int].dedicated_session_id == Some(x));
                }
            }
            if pushed {
                assert(listed_sids@ == listed_before.push(g@.dedicated_session_id->Some_0));
            } else {
                assert(listed_sids@ == listed_before);
            }
            assert forall|x: u64| #[trigger] listed_sids@.contains(x) == listed(post, es, x) by {
                if pushed {
                    let v = g@.dedicated_session_id->Some_0;
                    if listed_before.contains(x) {
                        let k = choose|k: int| 0 <= k < listed_before.len() && listed_before[k] == x;
                        assert(listed_sids@[k] == x);
                    }
                    if x == v {
                        assert(listed_sids@[listed_before.len() as int] == x);
                    }
                    if listed_sids@.contains(x) && x != v {
                        let k = choose|k: int| 0 <= k < listed_sids@.len() && listed_sids@[k] == x;
                        assert(listed_before[k] == x);
                    }
                }
            }
        }
        i = i + 1;
    }
    assert(gs.subrange(0, n as int) =~= gs);
    // Rows of pool entries that no match row covers.
    let entries = pool.list_entries();
    let ghost fs = ev(entries@);
    let mut j: usize = 0;
    let ghost game_part = rows_view(rows@);
    while j < entries.len()
        invariant
            fs == ev(entries@),
            fs == es,
            es == pool@.entries,
            names == names_view(peer_names@),
            ips == names_view(peer_ips@),
            j <= entries@.len(),
            forall|x: u64| #[trigger] listed_sids@.contains(x) == listed(gs, es, x),
            rows_view(rows@) == game_part + pool_rows(fs.subrange(0, j as int), gs, es, names, ips),
        decreases entries@.len() - j,
    {
        let e = &entries[j];
        assert(fs.subrange(0, j + 1).drop_last() =~= fs.subrange(0, j as int));
        assert(fs.subrange(0, j + 1).last() == e@);
        let ghost rows_before = rows@;
        let shown = e.creator_registered && (e.state == DedicatedPoolState::Idle || e.state
            == DedicatedPoolState::CreatorRegistered || e.state == DedicatedPoolState::Recycling);
        if !crate::cnc::game_state::contains_u64(&listed_sids, e.blaze_session_id) && shown {
            let row = pool_row_exec(e, peer_names, peer_ips);
            rows.push(row);
            assert(rows_view(rows@) =~= rows_view(rows_before).push(row@));
        }
        j = j + 1;
    }
    assert(fs.subrange(0, j as int) =~= fs);
    rows
}

} // verus!
