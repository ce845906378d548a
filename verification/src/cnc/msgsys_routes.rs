//! MessageSystem routing: which dedicated ServerHost a client TCP connection
//! on the shared hub is spliced to. A client is bound to its match's dedicated
//! by persona; without one, only an unambiguous choice is taken.
use vstd::prelude::*;
use crate::cnc::dedicated_pool::{
    bound_dedicated, entry_of, ev, msg_sys_port, prism_port_or, usable_prism_tcp_port, BlazeSessionInfo,
    DedicatedPool, DedicatedPoolState, EntryView, PoolView, DEDICATED_PING_TCP_PORT,
};
use crate::cnc::game_state::{game_of, human_gids, players_view, GameRegistry, PlayerView, RegistryView};
use crate::cnc::lobby::{name_for, name_for_exec, names_view};
use crate::msgsystem::wire::str_to_string;

verus! {

broadcast use vstd::string::group_string_axioms;

/// The MsgSys route of one persona.
#[derive(Debug, Clone)]
pub struct MsgsysRoute {
    pub gid: i64,
    pub persona_id: i64,
    /// The Blaze session that asked for the route.
    pub blaze_session_id: Option<u64>,
    /// The dedicated of the match when the route was noted.
    pub dedicated_session_id: Option<u64>,
    /// The client's IP, when known.
    pub client_ip: Option<String>,
}

pub struct RouteView {
    pub gid: i64,
    pub persona_id: i64,
    pub blaze_session_id: Option<u64>,
    pub dedicated_session_id: Option<u64>,
    pub client_ip: Option<Seq<char>>,
}

pub open spec fn opt_chars(v: Option<String>) -> Option<Seq<char>> {
    match v {
        Some(s) => Some(s@),
        None => None,
    }
}

impl View for MsgsysRoute {
    type V = RouteView;

    open spec fn view(&self) -> RouteView {
        RouteView {
            gid: self.gid,
            persona_id: self.persona_id,
            blaze_session_id: self.blaze_session_id,
            dedicated_session_id: self.dedicated_session_id,
            client_ip: opt_chars(self.client_ip),
        }
    }
}

pub open spec fn routes_view(v: Seq<MsgsysRoute>) -> Seq<RouteView> {
    v.map_values(|r: MsgsysRoute| r@)
}

/// An upstream ServerHost address.
#[derive(Debug, Clone, PartialEq, Eq)]
pub struct Upstream {
    pub host: String,
    pub port: u16,
}

/// The routes, at most one per persona.
pub struct MsgsysRoutes {
    routes: Vec<MsgsysRoute>,
}

impl View for MsgsysRoutes {
    type V = Seq<RouteView>;

    closed spec fn view(&self) -> Seq<RouteView> {
        routes_view(self.routes@)
    }
}

pub open spec fn without_persona(s: Seq<RouteView>, pid: i64) -> Seq<RouteView>
    decreases s.len(),
{
    if s.len() == 0 {
        s
    } else {
        let r = without_persona(s.drop_last(), pid);
        if s.last().persona_id != pid {
            r.push(s.last())
        } else {
            r
        }
    }
}

pub open spec fn without_gid(s: Seq<RouteView>, gid: i64) -> Seq<RouteView>
    decreases s.len(),
{
    if s.len() == 0 {
        s
    } else {
        let r = without_gid(s.drop_last(), gid);
        if s.last().gid != gid {
            r.push(s.last())
        } else {
            r
        }
    }
}

/// The routes once `r` replaces the route of its persona.
pub open spec fn route_noted(s: Seq<RouteView>, r: RouteView) -> Seq<RouteView> {
    without_persona(s, r.persona_id).push(r)
}

/// The route of persona `pid`.
pub open spec fn route_of(s: Seq<RouteView>, pid: i64) -> Option<RouteView>
    decreases s.len(),
{
    if s.len() == 0 {
        None
    } else if s.last().persona_id == pid {
        Some(s.last())
    } else {
        route_of(s.drop_last(), pid)
    }
}

/// The routes whose client IP is `ip`.
pub open spec fn routes_from_ip(s: Seq<RouteView>, ip: Seq<char>) -> Seq<RouteView>
    decreases s.len(),
{
    if s.len() == 0 {
        s
    } else {
        let r = routes_from_ip(s.drop_last(), ip);
        if s.last().client_ip == Some(ip) {
            r.push(s.last())
        } else {
            r
        }
    }
}

/// The IP a dedicated's peer address reads as (`ips` per session), else loopback.
pub open spec fn entry_host(ips: Seq<(u64, Seq<char>)>, sid: u64) -> Seq<char> {
    match name_for(ips, sid) {
        Some(ip) => ip,
        None => "127.0.0.1"@,
    }
}

/// The ServerHost of dedicated `sid`: its peer IP and MsgSys port.
pub open spec fn dedicated_upstream(p: PoolView, ips: Seq<(u64, Seq<char>)>, sid: u64) -> Option<(Seq<char>, u16)> {
    match entry_of(p.entries, sid) {
        Some(e) => Some((entry_host(ips, sid), prism_port_or(e.msg_sys_tcp_port, DEDICATED_PING_TCP_PORT))),
        None => None,
    }
}

/// The ServerHost of match `gid`: that of the dedicated bound to it.
pub open spec fn gid_upstream(p: PoolView, r: RegistryView, ips: Seq<(u64, Seq<char>)>, gid: i64) -> Option<(Seq<char>, u16)> {
    let gd = match game_of(r.games, gid) {
        Some(g) => g.dedicated_session_id,
        None => None,
    };
    match bound_dedicated(p, gid, gd) {
        Some(sid) => dedicated_upstream(p, ips, sid),
        None => None,
    }
}

/// The ServerHost of a route: its dedicated's when that is still in the pool,
/// else its match's.
pub open spec fn route_upstream(p: PoolView, r: RegistryView, ips: Seq<(u64, Seq<char>)>, rt: RouteView) -> Option<(Seq<char>, u16)> {
    match rt.dedicated_session_id {
        Some(sid) => match dedicated_upstream(p, ips, sid) {
            Some(u) => Some(u),
            None => gid_upstream(p, r, ips, rt.gid),
        },
        None => gid_upstream(p, r, ips, rt.gid),
    }
}

/// A dedicated that can host: a usable MsgSys port, and in a match or registered.
pub open spec fn hosting(e: EntryView) -> bool {
    (e.msg_sys_tcp_port matches Some(x) && usable_prism_tcp_port(x)) && (e.state == DedicatedPoolState::InUse
        || e.creator_registered)
}

pub open spec fn hosting_entries(s: Seq<EntryView>) -> Seq<EntryView>
    decreases s.len(),
{
    if s.len() == 0 {
        s
    } else {
        let r = hosting_entries(s.drop_last());
        if hosting(s.last()) {
            r.push(s.last())
        } else {
            r
        }
    }
}

/// The ServerHost when only one is possible: the single route's, else the
/// single hosting dedicated's.
pub open spec fn unambiguous_upstream(s: Seq<RouteView>, p: PoolView, r: RegistryView, ips: Seq<(u64, Seq<char>)>) -> Option<(Seq<char>, u16)> {
    let from_route = if s.len() == 1 {
        route_upstream(p, r, ips, s[0])
    } else {
        None
    };
    match from_route {
        Some(u) => Some(u),
        None => {
            let h = hosting_entries(p.entries);
            if h.len() == 1 {
                Some(
                    (
                        entry_host(ips, h[0].blaze_session_id),
                        prism_port_or(h[0].msg_sys_tcp_port, DEDICATED_PING_TCP_PORT),
                    ),
                )
            } else {
                None
            }
        },
    }
}

/// The ServerHost of a client on the shared hub: by its `ClientHello` persona
/// (its route, else its only match); a loopback client without one only when
/// unambiguous; otherwise by its IP when exactly one route has it, else when unambiguous.
pub open spec fn client_upstream(
    s: Seq<RouteView>,
    p: PoolView,
    r: RegistryView,
    ips: Seq<(u64, Seq<char>)>,
    peer_ip: Seq<char>,
    peer_loopback: bool,
    persona: Option<u64>,
) -> Option<(Seq<char>, u16)> {
    match persona {
        Some(pid) if pid != 0 => match route_of(s, pid as i64) {
            Some(rt) => route_upstream(p, r, ips, rt),
            None => {
                let gids = if (pid as i64) > 0 {
                    human_gids(r.games, pid as i64)
                } else {
                    Seq::empty()
                };
                if gids.len() == 1 {
                    gid_upstream(p, r, ips, gids[0])
                } else {
                    None
                }
            },
        },
        _ => if peer_loopback {
            unambiguous_upstream(s, p, r, ips)
        } else {
            let m = routes_from_ip(s, peer_ip);
            if m.len() == 1 {
                route_upstream(p, r, ips, m[0])
            } else {
                unambiguous_upstream(s, p, r, ips)
            }
        },
    }
}

pub open spec fn up_view(u: Option<Upstream>) -> Option<(Seq<char>, u16)> {
    match u {
        Some(x) => Some((x.host@, x.port)),
        None => None,
    }
}

fn entry_host_exec(ips: &Vec<(u64, String)>, sid: u64) -> (h: String)
    ensures
        h@ == entry_host(names_view(ips@), sid),
{
    match name_for_exec(ips, sid) {
        Some(ip) => ip,
        None => str_to_string("127.0.0.1"),
    }
}

/// The ServerHost of dedicated `sid` (see `dedicated_upstream`).
pub fn upstream_for_dedicated_sid(pool: &DedicatedPool, ips: &Vec<(u64, String)>, sid: u64) -> (u: Option<Upstream>)
    ensures
        up_view(u) == dedicated_upstream(pool@, names_view(ips@), sid),
{
    match pool.get_entry(sid) {
        Some(e) => Some(Upstream { host: entry_host_exec(ips, sid), port: msg_sys_port(&e) }),
        None => None,
    }
}

/// The ServerHost of match `gid` (see `gid_upstream`).
pub fn msgsys_upstream_for_gid(pool: &DedicatedPool, reg: &GameRegistry, ips: &Vec<(u64, String)>, gid: i64) -> (u:
    Option<Upstream>)
    ensures
        up_view(u) == gid_upstream(pool@, reg@, names_view(ips@), gid),
{
    let gd = reg.dedicated_session_id_for_gid(gid);
    match pool.bound_dedicated_for_gid(gid, gd) {
        Some(sid) => upstream_for_dedicated_sid(pool, ips, sid),
        None => None,
    }
}

fn upstream_for_route(pool: &DedicatedPool, reg: &GameRegistry, ips: &Vec<(u64, String)>, rt: &MsgsysRoute) -> (u:
    Option<Upstream>)
    ensures
        up_view(u) == route_upstream(pool@, reg@, names_view(ips@), rt@),
{
    match rt.dedicated_session_id {
        Some(sid) => match upstream_for_dedicated_sid(pool, ips, sid) {
            Some(u) => Some(u),
            None => msgsys_upstream_for_gid(pool, reg, ips, rt.gid),
        },
        None => msgsys_upstream_for_gid(pool, reg, ips, rt.gid),
    }
}

/// The ServerHost that MsgSys port `msg_sys` belongs to: the first pool entry
/// (by session id) serving on it.
pub fn msgsys_upstream_for_serverhost_port(pool: &DedicatedPool, ips: &Vec<(u64, String)>, msg_sys: u16) -> (u:
    Option<Upstream>)
    ensures
        match u {
            Some(x) => exists|k: int|
                0 <= k < pool@.entries.len() && prism_port_or(pool@.entries[k].msg_sys_tcp_port, DEDICATED_PING_TCP_PORT)
                    == msg_sys && x.port == msg_sys && x.host@ == entry_host(
                    names_view(ips@),
                    pool@.entries[k].blaze_session_id,
                ) && forall|j: int|
                    0 <= j < k ==> prism_port_or(#[trigger] pool@.entries[j].msg_sys_tcp_port, DEDICATED_PING_TCP_PORT)
                        != msg_sys,
            None => forall|k: int|
                0 <= k < pool@.entries.len() ==> prism_port_or(
                    #[trigger] pool@.entries[k].msg_sys_tcp_port,
                    DEDICATED_PING_TCP_PORT,
                ) != msg_sys,
        },
{
    let entries = pool.list_entries();
    let ghost s = ev(entries@);
    let mut i: usize = 0;
    while i < entries.len()
        invariant
            i <= entries@.len(),
            s == ev(entries@),
            s == pool@.entries,
            forall|j: int| 0 <= j < i ==> prism_port_or(#[trigger] s[j].msg_sys_tcp_port, DEDICATED_PING_TCP_PORT)
                != msg_sys,
        decreases entries@.len() - i,
    {
        assert(s[i as int] == entries@[i as int]@);
        if msg_sys_port(&entries[i]) == msg_sys {
            return Some(Upstream { host: entry_host_exec(ips, entries[i].blaze_session_id), port: msg_sys });
        }
        i = i + 1;
    }
    None
}

fn clone_route(r: &MsgsysRoute) -> (c: MsgsysRoute)
    ensures
        c@ == r@,
{
    MsgsysRoute {
        gid: r.gid,
        persona_id: r.persona_id,
        blaze_session_id: r.blaze_session_id,
        dedicated_session_id: r.dedicated_session_id,
        client_ip: match &r.client_ip {
            Some(ip) => Some(ip.clone()),
            None => None,
        },
    }
}

impl MsgsysRoutes {
    /// No routes.
    pub fn new() -> (r: Self)
        ensures
            r@ == Seq::<RouteView>::empty(),
    {
        let r = MsgsysRoutes { routes: Vec::new() };
        assert(routes_view(r.routes@) =~= Seq::<RouteView>::empty());
        r
    }

    fn put(&mut self, rt: MsgsysRoute)
        ensures
            final(self)@ == route_noted(old(self)@, rt@),
    {
        let ghost s = self@;
        let mut kept: Vec<MsgsysRoute> = Vec::new();
        let mut i: usize = 0;
        while i < self.routes.len()
            invariant
                i <= self.routes@.len(),
                s == routes_view(self.routes@),
                routes_view(kept@) == without_persona(s.subrange(0, i as int), rt.persona_id),
            decreases self.routes@.len() - i,
        {
            let ghost t = s.subrange(0, i + 1);
            assert(t.drop_last() =~= s.subrange(0, i as int));
            assert(t.last() == self.routes@[i as int]@);
            if self.routes[i].persona_id != rt.persona_id {
                let ghost before = routes_view(kept@);
                let c = clone_route(&self.routes[i]);
                kept.push(c);
                assert(routes_view(kept@) =~= before.push(self.routes@[i as int]@));
            }
            i = i + 1;
        }
        assert(s.subrange(0, i as int) =~= s);
        let ghost before = routes_view(kept@);
        let ghost rv = rt@;
        kept.push(rt);
        assert(routes_view(kept@) =~= before.push(rv));
        self.routes = kept;
    }
}

pub open spec fn game_dedicated_of(r: RegistryView, gid: i64) -> Option<u64> {
    match game_of(r.games, gid) {
        Some(g) => g.dedicated_session_id,
        None => None,
    }
}

/// What noting a route of `persona_id` to `gid` leaves (positive gid and persona only).
pub open spec fn client_route_noted(
    s: Seq<RouteView>,
    p: PoolView,
    r: RegistryView,
    gid: i64,
    persona_id: i64,
    blaze_session_id: Option<u64>,
    client_ip: Option<Seq<char>>,
) -> Seq<RouteView> {
    if gid <= 0 || persona_id <= 0 {
        s
    } else {
        route_noted(
            s,
            RouteView {
                gid,
                persona_id,
                blaze_session_id,
                dedicated_session_id: bound_dedicated(p, gid, game_dedicated_of(r, gid)),
                client_ip,
            },
        )
    }
}

/// The humans of a roster with a positive persona, in roster order.
pub open spec fn routed_humans(ps: Seq<PlayerView>) -> Seq<i64>
    decreases ps.len(),
{
    if ps.len() == 0 {
        Seq::empty()
    } else {
        let rest = routed_humans(ps.drop_last());
        if !ps.last().is_ai && ps.last().persona_id > 0 {
            rest.push(ps.last().persona_id)
        } else {
            rest
        }
    }
}

pub open spec fn all_routes_noted(s: Seq<RouteView>, p: PoolView, r: RegistryView, gid: i64, pids: Seq<i64>, session: Option<u64>) -> Seq<RouteView>
    decreases pids.len(),
{
    if pids.len() == 0 {
        s
    } else {
        client_route_noted(all_routes_noted(s, p, r, gid, pids.drop_last(), session), p, r, gid, pids.last(), session, None)
    }
}

impl MsgsysRoutes {
    /// Binds persona `persona_id` to match `gid` (both positive): the route
    /// remembers the match's dedicated, the asking session and the client's IP.
    pub fn note_client_msgsys_route(
        &mut self,
        pool: &DedicatedPool,
        reg: &GameRegistry,
        gid: i64,
        persona_id: i64,
        blaze_session_id: Option<u64>,
        client_ip: Option<String>,
    )
        ensures
            final(self)@ == client_route_noted(old(self)@, pool@, reg@, gid, persona_id, blaze_session_id, opt_chars(client_ip)),
    {
        if gid <= 0 || persona_id <= 0 {
            return;
        }
        let gd = reg.dedicated_session_id_for_gid(gid);
        let dedicated = pool.bound_dedicated_for_gid(gid, gd);
        self.put(MsgsysRoute { gid, persona_id, blaze_session_id, dedicated_session_id: dedicated, client_ip });
    }

    /// `note_client_msgsys_route` for the current Blaze session, with the IP
    /// its peer address reads as (`session_ips`, per session).
    pub fn note_client_msgsys_route_from_current_session(
        &mut self,
        pool: &DedicatedPool,
        reg: &GameRegistry,
        gid: i64,
        persona_id: i64,
        current_session: Option<u64>,
        session_ips: &Vec<(u64, String)>,
    )
        ensures
            final(self)@ == client_route_noted(
                old(self)@,
                pool@,
                reg@,
                gid,
                persona_id,
                current_session,
                match current_session {
                    Some(sid) => name_for(names_view(session_ips@), sid),
                    None => None,
                },
            ),
    {
        let ip = match current_session {
            Some(sid) => name_for_exec(session_ips, sid),
            None => None,
        };
        self.note_client_msgsys_route(pool, reg, gid, persona_id, current_session, ip);
    }

    /// Routes every human of match `gid` to it (no client IP).
    pub fn note_human_msgsys_routes_for_gid(
        &mut self,
        pool: &DedicatedPool,
        reg: &GameRegistry,
        gid: i64,
        current_session: Option<u64>,
    )
        ensures
            final(self)@ == all_routes_noted(
                old(self)@,
                pool@,
                reg@,
                gid,
                match game_of(reg@.games, gid) {
                    Some(g) => routed_humans(g.players),
                    None => Seq::empty(),
                },
                current_session,
            ),
    {
        let ghost s0 = self@;
        let pids: Vec<i64> = match reg.get_game(gid) {
            Some(g) => {
                let ghost ps = players_view(g.players@);
                let mut v: Vec<i64> = Vec::new();
                let mut k: usize = 0;
                while k < g.players.len()
                    invariant
                        k <= ps.len(),
                        ps == players_view(g.players@),
                        v@ == routed_humans(ps.subrange(0, k as int)),
                    decreases ps.len() - k,
                {
                    let ghost t = ps.subrange(0, k + 1);
                    assert(t.drop_last() =~= ps.subrange(0, k as int));
                    assert(t.last() == g.players@[k as int]@);
                    if !g.players[k].is_ai && g.players[k].persona_id > 0 {
                        v.push(g.players[k].persona_id);
                    }
                    k = k + 1;
                }
                assert(ps.subrange(0, k as int) =~= ps);
                v
            },
            None => Vec::new(),
        };
        let mut i: usize = 0;
        while i < pids.len()
            invariant
                i <= pids@.len(),
                self@ == all_routes_noted(s0, pool@, reg@, gid, pids@.subrange(0, i as int), current_session),
            decreases pids@.len() - i,
        {
            assert(pids@.subrange(0, i + 1).drop_last() =~= pids@.subrange(0, i as int));
            self.note_client_msgsys_route(pool, reg, gid, pids[i], current_session, None);
            i = i + 1;
        }
        assert(pids@.subrange(0, i as int) =~= pids@);
    }

    /// Drops the routes to match `gid`.
    pub fn clear_client_msgsys_routes_for_gid(&mut self, gid: i64)
        ensures
            final(self)@ == without_gid(old(self)@, gid),
    {
        let ghost s = self@;
        let mut kept: Vec<MsgsysRoute> = Vec::new();
        let mut i: usize = 0;
        while i < self.routes.len()
            invariant
                i <= self.routes@.len(),
                s == routes_view(self.routes@),
                routes_view(kept@) == without_gid(s.subrange(0, i as int), gid),
            decreases self.routes@.len() - i,
        {
            let ghost t = s.subrange(0, i + 1);
            assert(t.drop_last() =~= s.subrange(0, i as int));
            assert(t.last() == self.routes@[i as int]@);
            if self.routes[i].gid != gid {
                let ghost before = routes_view(kept@);
                kept.push(clone_route(&self.routes[i]));
                assert(routes_view(kept@) =~= before.push(self.routes@[i as int]@));
            }
            i = i + 1;
        }
        assert(s.subrange(0, i as int) =~= s);
        self.routes = kept;
    }

    fn route_for(&self, pid: i64) -> (r: Option<&MsgsysRoute>)
        ensures
            match r {
                Some(x) => route_of(self@, pid) == Some(x@),
                None => route_of(self@, pid) is None,
            },
    {
        let ghost s = self@;
        let mut i: usize = self.routes.len();
        assert(s.subrange(0, i as int) =~= s);
        while i > 0
            invariant
                i <= s.len(),
                s == routes_view(self.routes@),
                route_of(s, pid) == route_of(s.subrange(0, i as int), pid),
            decreases i,
        {
            let ghost t = s.subrange(0, i as int);
            assert(t.drop_last() =~= s.subrange(0, i - 1));
            assert(t.last() == self.routes@[i - 1]@);
            if self.routes[i - 1].persona_id == pid {
                return Some(&self.routes[i - 1]);
            }
            i = i - 1;
        }
        None
    }

    fn routes_with_ip(&self, ip: &str) -> (v: Vec<MsgsysRoute>)
        ensures
            routes_view(v@) == routes_from_ip(self@, ip@),
    {
        let ghost s = self@;
        let mut v: Vec<MsgsysRoute> = Vec::new();
        let mut i: usize = 0;
        while i < self.routes.len()
            invariant
                i <= self.routes@.len(),
                s == routes_view(self.routes@),
                routes_view(v@) == routes_from_ip(s.subrange(0, i as int), ip@),
            decreases self.routes@.len() - i,
        {
            let ghost t = s.subrange(0, i + 1);
            assert(t.drop_last() =~= s.subrange(0, i as int));
            assert(t.last() == self.routes@[i as int]@);
            let same = match &self.routes[i].client_ip {
                Some(c) => crate::text::chars_eq(&crate::text::str_chars(c.as_str()), &crate::text::str_chars(ip)),
                None => false,
            };
            if same {
                let ghost before = routes_view(v@);
                v.push(clone_route(&self.routes[i]));
                assert(routes_view(v@) =~= before.push(self.routes@[i as int]@));
            }
            i = i + 1;
        }
        assert(s.subrange(0, i as int) =~= s);
        v
    }

    fn unambiguous_exec(&self, pool: &DedicatedPool, reg: &GameRegistry, ips: &Vec<(u64, String)>) -> (u: Option<Upstream>)
        ensures
            up_view(u) == unambiguous_upstream(self@, pool@, reg@, names_view(ips@)),
    {
        if self.routes.len() == 1 {
            assert(self@[0] == self.routes@[0]@);
            match upstream_for_route(pool, reg, ips, &self.routes[0]) {
                Some(u) => return Some(u),
                None => {},
            }
        }
        let entries = pool.list_entries();
        let ghost es = ev(entries@);
        let mut hosts: Vec<crate::cnc::dedicated_pool::DedicatedServerEntry> = Vec::new();
        let mut i: usize = 0;
        while i < entries.len()
            invariant
                i <= entries@.len(),
                es == ev(entries@),
                es == pool@.entries,
                ev(hosts@) == hosting_entries(es.subrange(0, i as int)),
            decreases entries@.len() - i,
        {
            let ghost t = es.subrange(0, i + 1);
            assert(t.drop_last() =~= es.subrange(0, i as int));
            assert(t.last() == entries@[i as int]@);
            let e = &entries[i];
            let usable = match e.msg_sys_tcp_port {
                Some(x) => 1024 <= x && x <= 49151,
                None => false,
            };
            if usable && (e.state == DedicatedPoolState::InUse || e.creator_registered) {
                let ghost before = ev(hosts@);
                hosts.push(crate::cnc::dedicated_pool::clone_entry(e));
                assert(ev(hosts@) =~= before.push(e@));
            }
            i = i + 1;
        }
        assert(es.subrange(0, i as int) =~= es);
        if hosts.len() == 1 {
            let e = &hosts[0];
            assert(hosting_entries(es)[0] == hosts@[0]@);
            return Some(Upstream { host: entry_host_exec(ips, e.blaze_session_id), port: msg_sys_port(e) });
        }
        None
    }

    /// The ServerHost when only one is possible (see `unambiguous_upstream`),
    /// after the pool is brought up to date with the live Blaze `sessions`.
    pub fn resolve_unambiguous_msgsys_upstream(
        &self,
        pool: &mut DedicatedPool,
        reg: &GameRegistry,
        ips: &Vec<(u64, String)>,
        sessions: Vec<BlazeSessionInfo>,
        now: u64,
    ) -> (u: Option<Upstream>)
        ensures
            final(pool)@ == crate::cnc::dedicated_pool::sync_spec(old(pool)@, crate::cnc::dedicated_pool::sv(sessions@), now),
            up_view(u) == unambiguous_upstream(self@, final(pool)@, reg@, names_view(ips@)),
    {
        pool.sync_from_blaze_sessions(sessions, now);
        self.unambiguous_exec(pool, reg, ips)
    }

    /// The ServerHost of a client on the shared hub (see `client_upstream`),
    /// after the pool is brought up to date with the live Blaze `sessions`.
    pub fn resolve_client_msgsys_upstream(
        &self,
        pool: &mut DedicatedPool,
        reg: &GameRegistry,
        ips: &Vec<(u64, String)>,
        sessions: Vec<BlazeSessionInfo>,
        now: u64,
        peer_ip: &str,
        peer_loopback: bool,
        persona: Option<u64>,
    ) -> (u: Option<Upstream>)
        ensures
            final(pool)@ == crate::cnc::dedicated_pool::sync_spec(old(pool)@, crate::cnc::dedicated_pool::sv(sessions@), now),
            up_view(u) == client_upstream(self@, final(pool)@, reg@, names_view(ips@), peer_ip@, peer_loopback, persona),
    {
        pool.sync_from_blaze_sessions(sessions, now);
        match persona {
            Some(pid) => if pid != 0 {
                match self.route_for(pid as i64) {
                    Some(rt) => return upstream_for_route(pool, reg, ips, rt),
                    None => {
                        let gids = reg.gids_for_human_persona(pid as i64);
                        if gids.len() == 1 {
                            return msgsys_upstream_for_gid(pool, reg, ips, gids[0]);
                        }
                        return None;
                    },
                }
            },
            None => {},
        }
        if peer_loopback {
            return self.unambiguous_exec(pool, reg, ips);
        }
        let m = self.routes_with_ip(peer_ip);
        if m.len() == 1 {
            assert(routes_from_ip(self@, peer_ip@)[0] == m@[0]@);
            return upstream_for_route(pool, reg, ips, &m[0]);
        }
        self.unambiguous_exec(pool, reg, ips)
    }
}

} // verus!
