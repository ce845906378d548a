//! Pool of dedicated game servers (`cnc.server.exe` Blaze sessions) and their
//! assignment to client matches.
use vstd::prelude::*;
use crate::msgsystem::simucloud::SIMUCLOUD_PORT;
use rand::Rng;
use crate::text::{
    chars_to_string, contains_chars, contains_seq, dec, last_index_of, lower, lower_vec, push_dec,
    push_str, replace_all, replace_all_exec, rfind_char, slice_range, str_chars, trim, trim_vec,
};

verus! {

broadcast use vstd::string::group_string_axioms;

pub const DEDICATED_SYNTHETIC_PERSONA_BASE: i64 = 20_000_000_000_000;

pub fn is_dedicated_synthetic_persona(pid: i64) -> (b: bool)
    ensures
        b == (pid >= DEDICATED_SYNTHETIC_PERSONA_BASE),
{
    pid >= DEDICATED_SYNTHETIC_PERSONA_BASE
}

/// A Blaze `CLNT` string qualifies for the dedicated pool when it holds `server`
/// in any ASCII case.
pub open spec fn clnt_qualifies(clnt: Seq<char>) -> bool {
    contains_seq(lower(clnt), "server"@)
}

pub fn clnt_qualifies_for_pool(clnt: &str) -> (b: bool)
    ensures
        b == clnt_qualifies(clnt@),
{
    let c = str_chars(clnt);
    let l = lower_vec(&c);
    let needle = str_chars("server");
    contains_chars(&l, &needle)
}

/// Wire-log tags of a dedicated session: `[Client→Blaze]` reads `[Server→Blaze]`
/// and `[Blaze→Client]` reads `[Blaze→Server]`.
pub open spec fn server_tagged(line: Seq<char>) -> Seq<char> {
    replace_all(
        replace_all(line, "[Client→Blaze]"@, "[Server→Blaze]"@),
        "[Blaze→Client]"@,
        "[Blaze→Server]"@,
    )
}

pub fn rewrite_server_tags(line: &str) -> (r: String)
    ensures
        r@ == server_tagged(line@),
{
    let l = str_chars(line);
    let a = str_chars("[Client→Blaze]");
    let b = str_chars("[Server→Blaze]");
    let c = str_chars("[Blaze→Client]");
    let d = str_chars("[Blaze→Server]");
    proof {
        reveal_strlit("[Client→Blaze]");
        reveal_strlit("[Blaze→Client]");
    }
    let first = replace_all_exec(&l, &a, &b);
    let second = replace_all_exec(&first, &c, &d);
    chars_to_string(&second)
}

/// The log line as shown for a session: server tags when the peer is a dedicated.
pub open spec fn normalized_wire_line(peer_is_server: bool, line: Seq<char>) -> Seq<char> {
    if peer_is_server {
        server_tagged(line)
    } else {
        line
    }
}

/// Lifecycle of a pooled dedicated server.
#[derive(Debug, Clone, Copy, PartialEq, Eq, Structural)]
pub enum DedicatedPoolState {
    Connected,
    CreatorRegistered,
    Idle,
    /// Level unload in progress after a reclaim; not assignable until it settles.
    Recycling,
    InUse,
}

pub open spec fn pool_state_label(s: DedicatedPoolState) -> Seq<char> {
    match s {
        DedicatedPoolState::Connected => "connected"@,
        DedicatedPoolState::CreatorRegistered => "registered"@,
        DedicatedPoolState::Idle => "idle (pool)"@,
        DedicatedPoolState::Recycling => "recycling (unload)"@,
        DedicatedPoolState::InUse => "in use"@,
    }
}

impl DedicatedPoolState {
    pub fn label(self) -> (s: &'static str)
        ensures
            s@ == pool_state_label(self),
    {
        match self {
            DedicatedPoolState::Connected => "connected",
            DedicatedPoolState::CreatorRegistered => "registered",
            DedicatedPoolState::Idle => "idle (pool)",
            DedicatedPoolState::Recycling => "recycling (unload)",
            DedicatedPoolState::InUse => "in use",
        }
    }
}

/// Wait after a reclaim unload before the dedicated may be sent a new match.
pub const RECYCLE_CMD220_STABILIZATION_SECS: u64 = 60;

/// Reclaim notifications for one dedicated within this window are coalesced.
pub const RECLAIM_NOTIFY_COALESCE_SECS: u64 = 60;

/// Extra CreateGame delay when a recycled dedicated switches maps.
pub const RECYCLE_MAP_SWITCH_CREATE_GAME_EXTRA_MS: u64 = 15_000;

/// Game UDP used when no EnginePeer port is known yet.
pub const DEFAULT_DEDICATED_GAME_UDP_PORT: i32 = 25200;

pub const DEDICATED_GAME_UDP_PORT: i32 = DEFAULT_DEDICATED_GAME_UDP_PORT;

/// ServerHost TCP port probed for a dedicated.
pub const DEDICATED_PING_TCP_PORT: u16 = 18387;

pub const GAMEMANAGER_ERR_NO_DEDICATED_SERVER_FOUND: u16 = 301;

/// Reports older than this are dropped when nothing claims them.
pub const PENDING_ENGINE_PEER_TTL_SECS: u64 = 600;

/// One pooled dedicated server, keyed by its Blaze session.
#[derive(Debug, Clone)]
pub struct DedicatedServerEntry {
    pub blaze_session_id: u64,
    pub peer: String,
    pub clnt: Option<String>,
    pub display_name: Option<String>,
    pub server_hostname: Option<String>,
    pub persona_id: Option<u64>,
    pub state: DedicatedPoolState,
    pub current_gid: Option<i64>,
    pub game_name: Option<String>,
    pub last_event_unix_secs: u64,
    pub creator_registered: bool,
    pub current_map: Option<String>,
    /// Map served before the last reclaim unload.
    pub previous_map: Option<String>,
    /// When the last reclaim unload was requested.
    pub unload_requested_at: Option<u64>,
    pub network_inip_ip: Option<i32>,
    pub network_inip_port: Option<i32>,
    pub network_exip_ip: Option<i32>,
    pub network_exip_port: Option<i32>,
    /// Game-mesh UDP port reported by EnginePeerInit.
    pub engine_peer_udp_port: Option<i32>,
    pub msg_sys_tcp_port: Option<u16>,
    pub simu_cloud_tcp_port: Option<u16>,
    pub qos_port: Option<u16>,
}

/// A pool entry with its text fields as character sequences.
pub struct EntryView {
    pub blaze_session_id: u64,
    pub peer: Seq<char>,
    pub clnt: Option<Seq<char>>,
    pub display_name: Option<Seq<char>>,
    pub server_hostname: Option<Seq<char>>,
    pub persona_id: Option<u64>,
    pub state: DedicatedPoolState,
    pub current_gid: Option<i64>,
    pub game_name: Option<Seq<char>>,
    pub last_event_unix_secs: u64,
    pub creator_registered: bool,
    pub current_map: Option<Seq<char>>,
    pub previous_map: Option<Seq<char>>,
    pub unload_requested_at: Option<u64>,
    pub network_inip_ip: Option<i32>,
    pub network_inip_port: Option<i32>,
    pub network_exip_ip: Option<i32>,
    pub network_exip_port: Option<i32>,
    pub engine_peer_udp_port: Option<i32>,
    pub msg_sys_tcp_port: Option<u16>,
    pub simu_cloud_tcp_port: Option<u16>,
    pub qos_port: Option<u16>,
}

pub open spec fn opt_str(v: Option<String>) -> Option<Seq<char>> {
    match v {
        Some(s) => Some(s@),
        None => None,
    }
}

impl View for DedicatedServerEntry {
    type V = EntryView;

    open spec fn view(&self) -> EntryView {
        EntryView {
            blaze_session_id: self.blaze_session_id,
            peer: self.peer@,
            clnt: opt_str(self.clnt),
            display_name: opt_str(self.display_name),
            server_hostname: opt_str(self.server_hostname),
            persona_id: self.persona_id,
            state: self.state,
            current_gid: self.current_gid,
            game_name: opt_str(self.game_name),
            last_event_unix_secs: self.last_event_unix_secs,
            creator_registered: self.creator_registered,
            current_map: opt_str(self.current_map),
            previous_map: opt_str(self.previous_map),
            unload_requested_at: self.unload_requested_at,
            network_inip_ip: self.network_inip_ip,
            network_inip_port: self.network_inip_port,
            network_exip_ip: self.network_exip_ip,
            network_exip_port: self.network_exip_port,
            engine_peer_udp_port: self.engine_peer_udp_port,
            msg_sys_tcp_port: self.msg_sys_tcp_port,
            simu_cloud_tcp_port: self.simu_cloud_tcp_port,
            qos_port: self.qos_port,
        }
    }
}

pub open spec fn ev(s: Seq<DedicatedServerEntry>) -> Seq<EntryView> {
    s.map_values(|e: DedicatedServerEntry| e@)
}

/// How a client reaches the dedicated that hosts its match.
#[derive(Debug, Clone, Copy, PartialEq, Eq, Structural)]
pub struct DedicatedHostContext {
    pub blaze_session_id: u64,
    pub persona_id: i64,
    pub inip_ip: i32,
    pub inip_port: i32,
    pub exip_ip: i32,
    pub exip_port: i32,
}

/// What the Blaze session registry knows of one connection.
#[derive(Debug, Clone)]
pub struct BlazeSessionInfo {
    pub id: u64,
    pub peer: String,
    pub clnt: Option<String>,
    pub display_name: Option<String>,
    pub persona_id: Option<u64>,
}

pub struct SessionView {
    pub id: u64,
    pub peer: Seq<char>,
    pub clnt: Option<Seq<char>>,
    pub display_name: Option<Seq<char>>,
    pub persona_id: Option<u64>,
}

impl View for BlazeSessionInfo {
    type V = SessionView;

    open spec fn view(&self) -> SessionView {
        SessionView {
            id: self.id,
            peer: self.peer@,
            clnt: opt_str(self.clnt),
            display_name: opt_str(self.display_name),
            persona_id: self.persona_id,
        }
    }
}

pub open spec fn sv(s: Seq<BlazeSessionInfo>) -> Seq<SessionView> {
    s.map_values(|x: BlazeSessionInfo| x@)
}

/// A synthetic name and persona handed to a registered dedicated.
#[derive(Debug, Clone)]
pub struct DedicatedIdentity {
    pub session_id: u64,
    pub number: u32,
    pub name: String,
    pub persona_id: u64,
}

/// A match gid bound to the dedicated that serves it.
#[derive(Debug, Clone, Copy, PartialEq, Eq, Structural)]
pub struct GameAssignment {
    pub gid: i64,
    pub client_session_id: u64,
    pub dedicated_session_id: u64,
    pub host: DedicatedHostContext,
    pub assigned_at_unix: u64,
}

/// An EnginePeer report that no pool entry could claim yet.
#[derive(Debug, Clone)]
pub struct PendingEnginePeer {
    pub port: i32,
    pub msg_sys: Option<u16>,
    pub simu_cloud: Option<u16>,
    pub qos: Option<u16>,
    pub peer_host: Option<String>,
    pub noted_at_unix: u64,
}

pub struct PendingView {
    pub port: i32,
    pub msg_sys: Option<u16>,
    pub simu_cloud: Option<u16>,
    pub qos: Option<u16>,
    pub peer_host: Option<Seq<char>>,
    pub noted_at_unix: u64,
}

impl View for PendingEnginePeer {
    type V = PendingView;

    open spec fn view(&self) -> PendingView {
        PendingView {
            port: self.port,
            msg_sys: self.msg_sys,
            simu_cloud: self.simu_cloud,
            qos: self.qos,
            peer_host: opt_str(self.peer_host),
            noted_at_unix: self.noted_at_unix,
        }
    }
}

pub open spec fn pv(s: Seq<PendingEnginePeer>) -> Seq<PendingView> {
    s.map_values(|x: PendingEnginePeer| x@)
}

/// Result of an EnginePeer report: applied to a session now, kept until a pool
/// entry can claim it, or refused (port not a game-mesh port).
#[derive(Debug, Clone, Copy, PartialEq, Eq, Structural)]
pub enum EnginePeerNote {
    Applied { session: u64 },
    Pending,
    Rejected,
}

fn clone_opt_string(o: &Option<String>) -> (r: Option<String>)
    ensures
        r == *o,
        opt_str(r) == opt_str(*o),
{
    match o {
        Some(s) => Some(s.clone()),
        None => None,
    }
}

/// A copy of `e`.
pub fn clone_entry(e: &DedicatedServerEntry) -> (r: DedicatedServerEntry)
    ensures
        r@ == e@,
{
    DedicatedServerEntry {
        blaze_session_id: e.blaze_session_id,
        peer: e.peer.clone(),
        clnt: clone_opt_string(&e.clnt),
        display_name: clone_opt_string(&e.display_name),
        server_hostname: clone_opt_string(&e.server_hostname),
        persona_id: e.persona_id,
        state: e.state,
        current_gid: e.current_gid,
        game_name: clone_opt_string(&e.game_name),
        last_event_unix_secs: e.last_event_unix_secs,
        creator_registered: e.creator_registered,
        current_map: clone_opt_string(&e.current_map),
        previous_map: clone_opt_string(&e.previous_map),
        unload_requested_at: e.unload_requested_at,
        network_inip_ip: e.network_inip_ip,
        network_inip_port: e.network_inip_port,
        network_exip_ip: e.network_exip_ip,
        network_exip_port: e.network_exip_port,
        engine_peer_udp_port: e.engine_peer_udp_port,
        msg_sys_tcp_port: e.msg_sys_tcp_port,
        simu_cloud_tcp_port: e.simu_cloud_tcp_port,
        qos_port: e.qos_port,
    }
}

pub(crate) fn clone_session(x: &BlazeSessionInfo) -> (r: BlazeSessionInfo)
    ensures
        r@ == x@,
{
    BlazeSessionInfo {
        id: x.id,
        peer: x.peer.clone(),
        clnt: clone_opt_string(&x.clnt),
        display_name: clone_opt_string(&x.display_name),
        persona_id: x.persona_id,
    }
}

fn clone_pending(x: &PendingEnginePeer) -> (r: PendingEnginePeer)
    ensures
        r@ == x@,
{
    PendingEnginePeer {
        port: x.port,
        msg_sys: x.msg_sys,
        simu_cloud: x.simu_cloud,
        qos: x.qos,
        peer_host: clone_opt_string(&x.peer_host),
        noted_at_unix: x.noted_at_unix,
    }
}

pub open spec fn sat_sub(a: u64, b: u64) -> u64 {
    if a >= b {
        (a - b) as u64
    } else {
        0
    }
}

/// Seconds still to wait, at time `now`, before a recycled dedicated takes a match.
pub open spec fn wait_secs(e: EntryView, now: u64) -> u64 {
    match e.unload_requested_at {
        Some(t) => sat_sub(RECYCLE_CMD220_STABILIZATION_SECS, sat_sub(now, t)),
        None => 0,
    }
}

/// A registered creator, settled, and idle or freshly registered.
pub open spec fn assignable(e: EntryView, now: u64) -> bool {
    e.creator_registered && wait_secs(e, now) == 0 && (e.state == DedicatedPoolState::Idle
        || e.state == DedicatedPoolState::CreatorRegistered)
}

/// Seconds to wait, at time `now` (Unix seconds), before sending a match to this
/// dedicated after a recent unload.
pub fn recycle_cmd220_wait_secs(entry: &DedicatedServerEntry, now: u64) -> (w: u64)
    ensures
        w == wait_secs(entry@, now),
{
    match entry.unload_requested_at {
        Some(t) => RECYCLE_CMD220_STABILIZATION_SECS.saturating_sub(now.saturating_sub(t)),
        None => 0,
    }
}

/// Whether this dedicated can take a new match at time `now`.
pub fn is_assignable(entry: &DedicatedServerEntry, now: u64) -> (b: bool)
    ensures
        b == assignable(entry@, now),
{
    entry.creator_registered && recycle_cmd220_wait_secs(entry, now) == 0 && (entry.state
        == DedicatedPoolState::Idle || entry.state == DedicatedPoolState::CreatorRegistered)
}

/// Browser name: the reported hostname, else the game name, else what the peer
/// address gives (`peer_fallback`), else `Dedicated #{session}`.
pub open spec fn browser_name(e: EntryView, peer_fallback: Option<Seq<char>>) -> Seq<char> {
    match e.server_hostname {
        Some(h) => h,
        None => match e.game_name {
            Some(g) => g,
            None => match peer_fallback {
                Some(p) => p,
                None => "Dedicated #"@ + dec(e.blaze_session_id as nat),
            },
        },
    }
}

/// `peer_fallback` is what the peer address reads as (its IP, or this machine's
/// name for a loopback peer), when it parses.
pub fn browser_server_name(entry: &DedicatedServerEntry, peer_fallback: Option<String>) -> (s: String)
    ensures
        s@ == browser_name(entry@, opt_str(peer_fallback)),
{
    match &entry.server_hostname {
        Some(h) => h.clone(),
        None => match &entry.game_name {
            Some(g) => g.clone(),
            None => match peer_fallback {
                Some(p) => p,
                None => {
                    let mut o: Vec<char> = Vec::new();
                    push_str(&mut o, "Dedicated #");
                    push_dec(&mut o, entry.blaze_session_id);
                    chars_to_string(&o)
                },
            },
        },
    }
}

/// Prism TCP ports are taken only from the registered range.
pub open spec fn usable_prism_tcp_port(p: u16) -> bool {
    1024 <= p <= 49151
}

/// Blaze QoS reflection ports live in the dynamic range.
pub open spec fn qos_ephemeral_udp_port(p: i32) -> bool {
    49152 <= p <= 65535
}

/// A game-mesh listen port: a valid port outside the QoS range.
pub open spec fn usable_game_udp_port(p: i32) -> bool {
    0 < p <= 65535 && !qos_ephemeral_udp_port(p)
}

fn is_usable_prism_tcp_port(p: u16) -> (b: bool)
    ensures
        b == usable_prism_tcp_port(p),
{
    1024 <= p && p <= 49151
}

fn is_usable_dedicated_game_udp_port(p: i32) -> (b: bool)
    ensures
        b == usable_game_udp_port(p),
{
    p > 0 && p <= 65535 && !(49152 <= p && p <= 65535)
}

pub open spec fn prism_port_or(p: Option<u16>, default: u16) -> u16 {
    match p {
        Some(x) => if usable_prism_tcp_port(x) {
            x
        } else {
            default
        },
        None => default,
    }
}

/// ServerHost TCP for this dedicated: its reported port when usable, else 18387.
pub fn msg_sys_port(entry: &DedicatedServerEntry) -> (p: u16)
    ensures
        p == prism_port_or(entry.msg_sys_tcp_port, DEDICATED_PING_TCP_PORT),
{
    match entry.msg_sys_tcp_port {
        Some(x) => if is_usable_prism_tcp_port(x) {
            x
        } else {
            DEDICATED_PING_TCP_PORT
        },
        None => DEDICATED_PING_TCP_PORT,
    }
}

/// SimuCloud TCP for this dedicated: its reported port when usable, else 18388.
pub fn simu_cloud_port(entry: &DedicatedServerEntry) -> (p: u16)
    ensures
        p == prism_port_or(entry.simu_cloud_tcp_port, SIMUCLOUD_PORT),
{
    match entry.simu_cloud_tcp_port {
        Some(x) => if is_usable_prism_tcp_port(x) {
            x
        } else {
            SIMUCLOUD_PORT
        },
        None => SIMUCLOUD_PORT,
    }
}

/// Hub port that forwards 1:1 to a ServerHost: one below it, never under 1024.
pub fn msgsys_hub_listen_port(msg_sys: u16) -> (p: u16)
    ensures
        p == if msg_sys <= 1025 {
            1024
        } else {
            (msg_sys - 1) as u16
        },
{
    let d = msg_sys.saturating_sub(1);
    if d < 1024 {
        1024
    } else {
        d
    }
}

/// Pool gids (10000 and up): browser row, join target and reset match id.
pub fn is_pool_standby_gid(gid: i64) -> (b: bool)
    ensures
        b == (gid >= 10_000),
{
    gid >= 10_000
}

pub open spec fn standby_gid(sid: u64) -> i64 {
    (10_000 + (sid % 900_000)) as i64
}

/// The standby gid that a pool session owns.
pub fn standby_gid_for_session(blaze_session_id: u64) -> (g: i64)
    ensures
        g == standby_gid(blaze_session_id),
        10_000 <= g < 910_000,
{
    10_000 + (blaze_session_id % 900_000) as i64
}

pub open spec fn strip_leading(s: Seq<char>, c: char) -> Seq<char>
    decreases s.len(),
{
    if s.len() > 0 && s[0] == c {
        strip_leading(s.drop_first(), c)
    } else {
        s
    }
}

pub open spec fn strip_trailing(s: Seq<char>, c: char) -> Seq<char>
    decreases s.len(),
{
    if s.len() > 0 && s.last() == c {
        strip_trailing(s.drop_last(), c)
    } else {
        s
    }
}

/// Host part of a peer address (before the last `:`), without IPv6 brackets.
pub open spec fn peer_host_key_of(peer: Seq<char>) -> Seq<char> {
    let i = last_index_of(peer, ':');
    let host = if i >= 0 {
        peer.subrange(0, i)
    } else {
        peer
    };
    strip_trailing(strip_leading(host, '['), ']')
}

pub(crate) fn strip_leading_exec(s: Vec<char>, c: char) -> (r: Vec<char>)
    ensures
        r@ == strip_leading(s@, c),
    decreases s@.len(),
{
    if s.len() > 0 && s[0] == c {
        let n = s.len();
        let t = slice_range(&s, 1, n);
        assert(t@ =~= s@.drop_first());
        strip_leading_exec(t, c)
    } else {
        s
    }
}

pub(crate) fn strip_trailing_exec(s: Vec<char>, c: char) -> (r: Vec<char>)
    ensures
        r@ == strip_trailing(s@, c),
    decreases s@.len(),
{
    let n = s.len();
    if n > 0 && s[n - 1] == c {
        let t = slice_range(&s, 0, n - 1);
        assert(t@ =~= s@.drop_last());
        strip_trailing_exec(t, c)
    } else {
        s
    }
}

fn peer_host_key(peer: &str) -> (r: Vec<char>)
    ensures
        r@ == peer_host_key_of(peer@),
{
    let p = str_chars(peer);
    let host = match rfind_char(&p, ':') {
        Some(i) => slice_range(&p, 0, i),
        None => p,
    };
    strip_trailing_exec(strip_leading_exec(host, '['), ']')
}

/// Whether a `CLNT` value marks a server.
pub open spec fn pool_candidate(clnt: Option<Seq<char>>) -> bool {
    match clnt {
        Some(c) => clnt_qualifies(c),
        None => false,
    }
}

fn is_pool_candidate(clnt: &Option<String>) -> (b: bool)
    ensures
        b == pool_candidate(opt_str(*clnt)),
{
    match clnt {
        Some(c) => clnt_qualifies_for_pool(c.as_str()),
        None => false,
    }
}

/// Entries ordered by strictly increasing session id.
pub open spec fn sorted_ids(s: Seq<EntryView>) -> bool {
    forall|i: int, j: int|
        0 <= i < j < s.len() ==> #[trigger] s[i].blaze_session_id < #[trigger] s[j].blaze_session_id
}

pub open spec fn unique_gids(s: Seq<GameAssignment>) -> bool {
    forall|i: int, j: int| 0 <= i < j < s.len() ==> #[trigger] s[i].gid != #[trigger] s[j].gid
}

pub open spec fn unique_identity_sessions(s: Seq<DedicatedIdentity>) -> bool {
    forall|i: int, j: int|
        0 <= i < j < s.len() ==> #[trigger] s[i].session_id != #[trigger] s[j].session_id
}

/// Position of session `sid` among the entries, or -1.
pub open spec fn entry_index(s: Seq<EntryView>, sid: u64) -> int {
    if exists|i: int| 0 <= i < s.len() && s[i].blaze_session_id == sid {
        choose|i: int| 0 <= i < s.len() && s[i].blaze_session_id == sid
    } else {
        -1
    }
}

pub open spec fn entry_of(s: Seq<EntryView>, sid: u64) -> Option<EntryView> {
    if entry_index(s, sid) >= 0 {
        Some(s[entry_index(s, sid)])
    } else {
        None
    }
}

pub proof fn lemma_entry_index(s: Seq<EntryView>, sid: u64, i: int)
    requires
        sorted_ids(s),
        0 <= i < s.len(),
        s[i].blaze_session_id == sid,
    ensures
        entry_index(s, sid) == i,
{
    let j = entry_index(s, sid);
    assert(0 <= j < s.len() && s[j].blaze_session_id == sid);
    if j < i {
        assert(s[j].blaze_session_id < s[i].blaze_session_id);
    }
    if i < j {
        assert(s[i].blaze_session_id < s[j].blaze_session_id);
    }
}

/// Position of the assignment for `gid`, or -1.
pub open spec fn assignment_index(s: Seq<GameAssignment>, gid: i64) -> int {
    if exists|i: int| 0 <= i < s.len() && s[i].gid == gid {
        choose|i: int| 0 <= i < s.len() && s[i].gid == gid
    } else {
        -1
    }
}

pub open spec fn assignment_of(s: Seq<GameAssignment>, gid: i64) -> Option<GameAssignment> {
    if assignment_index(s, gid) >= 0 {
        Some(s[assignment_index(s, gid)])
    } else {
        None
    }
}

pub proof fn lemma_assignment_index(s: Seq<GameAssignment>, gid: i64, i: int)
    requires
        unique_gids(s),
        0 <= i < s.len(),
        s[i].gid == gid,
    ensures
        assignment_index(s, gid) == i,
{
    let j = assignment_index(s, gid);
    assert(0 <= j < s.len() && s[j].gid == gid);
    if j != i {
        if j < i {
            assert(s[j].gid != s[i].gid);
        } else {
            assert(s[i].gid != s[j].gid);
        }
    }
}

/// Number of assignable entries at `now`.
pub open spec fn assignable_count(s: Seq<EntryView>, now: u64) -> nat
    decreases s.len(),
{
    if s.len() == 0 {
        0
    } else {
        assignable_count(s.drop_last(), now) + if assignable(s.last(), now) {
            1nat
        } else {
            0nat
        }
    }
}

/// Registered, not yet assignable, and idle, registered or recycling.
pub open spec fn stabilizing(e: EntryView, now: u64) -> bool {
    e.creator_registered && !assignable(e, now) && (e.state == DedicatedPoolState::Recycling
        || e.state == DedicatedPoolState::Idle || e.state == DedicatedPoolState::CreatorRegistered)
}

pub open spec fn stabilizing_count(s: Seq<EntryView>, now: u64) -> nat
    decreases s.len(),
{
    if s.len() == 0 {
        0
    } else {
        stabilizing_count(s.drop_last(), now) + if stabilizing(s.last(), now) {
            1nat
        } else {
            0nat
        }
    }
}

/// Longest wait among registered entries that are not assignable (0 if none).
pub open spec fn max_wait(s: Seq<EntryView>, now: u64) -> u64
    decreases s.len(),
{
    if s.len() == 0 {
        0
    } else {
        let m = max_wait(s.drop_last(), now);
        let e = s.last();
        if e.creator_registered && !assignable(e, now) && wait_secs(e, now) > m {
            wait_secs(e, now)
        } else {
            m
        }
    }
}

/// The entry still lacks a usable EnginePeer game port.
pub open spec fn needs_engine_peer(e: EntryView) -> bool {
    match e.engine_peer_udp_port {
        Some(p) => !usable_game_udp_port(p),
        None => true,
    }
}

/// How a pending EnginePeer report finds its entry: by the same game port
/// (`kind` 0), by peer host among entries that still need a port (1), or any
/// entry that still needs one (2).
pub open spec fn claim_match(e: EntryView, kind: nat, port: i32, host: Seq<char>) -> bool {
    if kind == 0 {
        e.engine_peer_udp_port == Some(port)
    } else if kind == 1 {
        needs_engine_peer(e) && lower(peer_host_key_of(e.peer)) == lower(host)
    } else {
        needs_engine_peer(e)
    }
}

/// Index of the first entry that `claim_match` accepts, or -1.
pub open spec fn first_match(s: Seq<EntryView>, kind: nat, port: i32, host: Seq<char>) -> int
    decreases s.len(),
{
    if s.len() == 0 {
        -1
    } else if claim_match(s[0], kind, port, host) {
        0
    } else {
        let r = first_match(s.drop_first(), kind, port, host);
        if r < 0 {
            -1
        } else {
            r + 1
        }
    }
}

pub open spec fn needy_count(s: Seq<EntryView>) -> nat
    decreases s.len(),
{
    if s.len() == 0 {
        0
    } else {
        needy_count(s.drop_last()) + if needs_engine_peer(s.last()) {
            1nat
        } else {
            0nat
        }
    }
}

proof fn lemma_first_match(s: Seq<EntryView>, kind: nat, port: i32, host: Seq<char>, i: int)
    requires
        0 <= i <= s.len(),
        forall|k: int| 0 <= k < i ==> !claim_match(#[trigger] s[k], kind, port, host),
    ensures
        i < s.len() && claim_match(s[i], kind, port, host) ==> first_match(s, kind, port, host)
            == i,
        i == s.len() ==> first_match(s, kind, port, host) == -1,
    decreases i,
{
    if i > 0 {
        assert forall|k: int| 0 <= k < i - 1 implies !claim_match(
            #[trigger] s.drop_first()[k],
            kind,
            port,
            host,
        ) by {
            assert(s.drop_first()[k] == s[k + 1]);
        }
        lemma_first_match(s.drop_first(), kind, port, host, i - 1);
    }
}

proof fn lemma_first_match_bound(s: Seq<EntryView>, kind: nat, port: i32, host: Seq<char>)
    ensures
        -1 <= first_match(s, kind, port, host) < s.len(),
        first_match(s, kind, port, host) >= 0 ==> claim_match(
            s[first_match(s, kind, port, host)],
            kind,
            port,
            host,
        ),
    decreases s.len(),
{
    if s.len() > 0 {
        lemma_first_match_bound(s.drop_first(), kind, port, host);
    }
}

/// The reported Prism TCP ports, each taken only when usable.
pub open spec fn with_prism_ports(
    e: EntryView,
    msg_sys: Option<u16>,
    simu_cloud: Option<u16>,
    qos: Option<u16>,
) -> EntryView {
    EntryView {
        msg_sys_tcp_port: match msg_sys {
            Some(p) => if usable_prism_tcp_port(p) {
                Some(p)
            } else {
                e.msg_sys_tcp_port
            },
            None => e.msg_sys_tcp_port,
        },
        simu_cloud_tcp_port: match simu_cloud {
            Some(p) => if usable_prism_tcp_port(p) {
                Some(p)
            } else {
                e.simu_cloud_tcp_port
            },
            None => e.simu_cloud_tcp_port,
        },
        qos_port: match qos {
            Some(p) => if usable_prism_tcp_port(p) {
                Some(p)
            } else {
                e.qos_port
            },
            None => e.qos_port,
        },
        ..e
    }
}

/// An entry after claiming a pending report at `now`.
pub open spec fn with_pending(e: EntryView, p: PendingView, now: u64) -> EntryView {
    EntryView {
        engine_peer_udp_port: Some(p.port),
        last_event_unix_secs: now,
        ..with_prism_ports(e, p.msg_sys, p.simu_cloud, p.qos)
    }
}

/// The entry that a pending report is given to, or -1.
pub open spec fn claim_target(s: Seq<EntryView>, p: PendingView) -> int {
    let a = first_match(s, 0, p.port, Seq::empty());
    let b = match p.peer_host {
        Some(h) => first_match(s, 1, p.port, h),
        None => -1,
    };
    if a >= 0 {
        a
    } else if b >= 0 {
        b
    } else if needy_count(s) == 1 {
        first_match(s, 2, p.port, Seq::empty())
    } else {
        -1
    }
}

/// The queue processed in order: each report goes to its claim target, or stays
/// queued while younger than ten minutes.
pub open spec fn apply_pending_seq(s: Seq<EntryView>, q: Seq<PendingView>, now: u64) -> (
    Seq<EntryView>,
    Seq<PendingView>,
)
    decreases q.len(),
{
    if q.len() == 0 {
        (s, Seq::empty())
    } else {
        let (s1, k1) = apply_pending_seq(s, q.drop_last(), now);
        let p = q.last();
        let t = claim_target(s1, p);
        if t >= 0 {
            (s1.update(t, with_pending(s1[t], p, now)), k1)
        } else if sat_sub(now, p.noted_at_unix) < PENDING_ENGINE_PEER_TTL_SECS {
            (s1, k1.push(p))
        } else {
            (s1, k1)
        }
    }
}

/// Nothing happens while the queue or the pool is empty.
pub open spec fn apply_pending(s: Seq<EntryView>, q: Seq<PendingView>, now: u64) -> (
    Seq<EntryView>,
    Seq<PendingView>,
) {
    if q.len() == 0 || s.len() == 0 {
        (s, q)
    } else {
        apply_pending_seq(s, q, now)
    }
}

proof fn lemma_claim_target_bound(s: Seq<EntryView>, p: PendingView)
    ensures
        -1 <= claim_target(s, p) < s.len(),
{
    lemma_first_match_bound(s, 0, p.port, Seq::empty());
    match p.peer_host {
        Some(h) => lemma_first_match_bound(s, 1, p.port, h),
        None => {},
    }
    lemma_first_match_bound(s, 2, p.port, Seq::empty());
}

proof fn lemma_apply_pending_seq_ids(s: Seq<EntryView>, q: Seq<PendingView>, now: u64)
    ensures
        apply_pending_seq(s, q, now).0.len() == s.len(),
        forall|i: int|
            0 <= i < s.len() ==> (#[trigger] apply_pending_seq(s, q, now).0[i]).blaze_session_id
                == s[i].blaze_session_id,
    decreases q.len(),
{
    if q.len() > 0 {
        lemma_apply_pending_seq_ids(s, q.drop_last(), now);
        let s1 = apply_pending_seq(s, q.drop_last(), now).0;
        lemma_claim_target_bound(s1, q.last());
    }
}

proof fn lemma_apply_pending_sorted(s: Seq<EntryView>, q: Seq<PendingView>, now: u64)
    requires
        sorted_ids(s),
    ensures
        sorted_ids(apply_pending(s, q, now).0),
        apply_pending(s, q, now).0.len() == s.len(),
        forall|i: int|
            0 <= i < s.len() ==> (#[trigger] apply_pending(s, q, now).0[i]).blaze_session_id
                == s[i].blaze_session_id,
{
    lemma_apply_pending_seq_ids(s, q, now);
    let t = apply_pending(s, q, now).0;
    assert forall|a: int, b: int| 0 <= a < b < t.len() implies #[trigger] t[a].blaze_session_id
        < #[trigger] t[b].blaze_session_id by {
        assert(s[a].blaze_session_id < s[b].blaze_session_id);
    }
}

/// Index of the first session with id `sid`, or -1.
pub open spec fn session_index(s: Seq<SessionView>, sid: u64) -> int
    decreases s.len(),
{
    if s.len() == 0 {
        -1
    } else if s[0].id == sid {
        0
    } else {
        let r = session_index(s.drop_first(), sid);
        if r < 0 {
            -1
        } else {
            r + 1
        }
    }
}

pub open spec fn session_of(ss: Seq<SessionView>, sid: u64) -> Option<SessionView> {
    if session_index(ss, sid) >= 0 {
        Some(ss[session_index(ss, sid)])
    } else {
        None
    }
}

pub(crate) proof fn lemma_session_index(s: Seq<SessionView>, sid: u64, i: int)
    requires
        0 <= i <= s.len(),
        forall|k: int| 0 <= k < i ==> (#[trigger] s[k]).id != sid,
    ensures
        i < s.len() && s[i].id == sid ==> session_index(s, sid) == i,
        i == s.len() ==> session_index(s, sid) == -1,
    decreases i,
{
    if i > 0 {
        assert forall|k: int| 0 <= k < i - 1 implies (#[trigger] s.drop_first()[k]).id != sid by {
            assert(s.drop_first()[k] == s[k + 1]);
        }
        lemma_session_index(s.drop_first(), sid, i - 1);
    }
}

proof fn lemma_session_index_bound(s: Seq<SessionView>, sid: u64)
    ensures
        -1 <= session_index(s, sid) < s.len(),
        session_index(s, sid) >= 0 ==> s[session_index(s, sid)].id == sid,
    decreases s.len(),
{
    if s.len() > 0 {
        lemma_session_index_bound(s.drop_first(), sid);
    }
}

/// A pool entry (registered, or with a server `CLNT`) exists for the session.
pub open spec fn is_dedicated_session(s: Seq<EntryView>, sid: u64) -> bool {
    match entry_of(s, sid) {
        Some(e) => e.creator_registered || pool_candidate(e.clnt),
        None => false,
    }
}

/// The session is a dedicated server: by its pool entry, or by its `CLNT`.
pub open spec fn peer_is_server(s: Seq<EntryView>, ss: Seq<SessionView>, sid: u64) -> bool {
    is_dedicated_session(s, sid) || match session_of(ss, sid) {
        Some(x) => pool_candidate(x.clnt),
        None => false,
    }
}

/// Entries with an id below `sid`: where an entry for `sid` goes.
pub open spec fn count_below(s: Seq<EntryView>, sid: u64) -> nat
    decreases s.len(),
{
    if s.len() == 0 {
        0
    } else {
        count_below(s.drop_last(), sid) + if s.last().blaze_session_id < sid {
            1nat
        } else {
            0nat
        }
    }
}

proof fn lemma_count_below(s: Seq<EntryView>, sid: u64)
    requires
        sorted_ids(s),
        forall|i: int| 0 <= i < s.len() ==> (#[trigger] s[i]).blaze_session_id != sid,
    ensures
        count_below(s, sid) <= s.len(),
        forall|i: int| 0 <= i < count_below(s, sid) ==> (#[trigger] s[i]).blaze_session_id < sid,
        forall|i: int|
            count_below(s, sid) <= i < s.len() ==> (#[trigger] s[i]).blaze_session_id > sid,
    decreases s.len(),
{
    if s.len() > 0 {
        let t = s.drop_last();
        assert(sorted_ids(t)) by {
            assert forall|a: int, b: int| 0 <= a < b < t.len() implies #[trigger] t[a].blaze_session_id
                < #[trigger] t[b].blaze_session_id by {
                assert(s[a].blaze_session_id < s[b].blaze_session_id);
            }
        }
        lemma_count_below(t, sid);
        let c = count_below(t, sid);
        assert forall|i: int| 0 <= i < t.len() implies s[i] == #[trigger] t[i] by {}
        if s.last().blaze_session_id < sid {
            if c < t.len() {
                assert(t[c as int].blaze_session_id > sid);
                assert(s[c as int].blaze_session_id < s[s.len() - 1].blaze_session_id);
            }
            assert(c == t.len());
            assert forall|i: int| 0 <= i < count_below(s, sid) implies (#[trigger] s[i]).blaze_session_id
                < sid by {
                if i < t.len() {
                    assert(t[i].blaze_session_id < sid);
                }
            }
        } else {
            assert(count_below(s, sid) == c);
            assert forall|i: int| 0 <= i < count_below(s, sid) implies (#[trigger] s[i]).blaze_session_id
                < sid by {
                assert(t[i].blaze_session_id < sid);
            }
            assert forall|i: int| count_below(s, sid) <= i < s.len() implies (#[trigger] s[i]).blaze_session_id
                > sid by {
                if i < t.len() {
                    assert(t[i].blaze_session_id > sid);
                }
            }
        }
    }
}

/// `s` with `e` placed by its session id.
pub open spec fn inserted(s: Seq<EntryView>, e: EntryView) -> Seq<EntryView> {
    s.insert(count_below(s, e.blaze_session_id) as int, e)
}

proof fn lemma_inserted_sorted(s: Seq<EntryView>, e: EntryView)
    requires
        sorted_ids(s),
        entry_index(s, e.blaze_session_id) == -1,
    ensures
        sorted_ids(inserted(s, e)),
        entry_index(inserted(s, e), e.blaze_session_id) == count_below(s, e.blaze_session_id),
{
    let sid = e.blaze_session_id;
    assert forall|i: int| 0 <= i < s.len() implies (#[trigger] s[i]).blaze_session_id != sid by {
        if s[i].blaze_session_id == sid {
            assert(entry_index(s, sid) >= 0);
        }
    }
    lemma_count_below(s, sid);
    let c = count_below(s, sid) as int;
    let t = inserted(s, e);
    assert forall|a: int, b: int| 0 <= a < b < t.len() implies #[trigger] t[a].blaze_session_id
        < #[trigger] t[b].blaze_session_id by {
        if b < c {
            assert(s[a].blaze_session_id < s[b].blaze_session_id);
        } else if b == c {
        } else if a < c {
            assert(t[b] == s[b - 1]);
        } else if a == c {
            assert(t[b] == s[b - 1]);
        } else {
            assert(s[a - 1].blaze_session_id < s[b - 1].blaze_session_id);
        }
    }
    lemma_entry_index(t, sid, c);
}

/// A new entry for session `sid` as first seen at `now`: the session's data when
/// the registry knows it, and a `RtsBlazeServer` client string otherwise.
pub open spec fn fresh_entry(sid: u64, sess: Option<SessionView>, now: u64) -> EntryView {
    EntryView {
        blaze_session_id: sid,
        peer: match sess {
            Some(x) => x.peer,
            None => Seq::empty(),
        },
        clnt: match sess {
            Some(x) => match x.clnt {
                Some(c) => Some(c),
                None => Some("RtsBlazeServer"@),
            },
            None => Some("RtsBlazeServer"@),
        },
        display_name: match sess {
            Some(x) => x.display_name,
            None => None,
        },
        server_hostname: None,
        persona_id: match sess {
            Some(x) => x.persona_id,
            None => None,
        },
        state: DedicatedPoolState::Connected,
        current_gid: None,
        game_name: None,
        last_event_unix_secs: now,
        creator_registered: false,
        current_map: None,
        previous_map: None,
        unload_requested_at: None,
        network_inip_ip: None,
        network_inip_port: None,
        network_exip_ip: None,
        network_exip_port: None,
        engine_peer_udp_port: None,
        msg_sys_tcp_port: None,
        simu_cloud_tcp_port: None,
        qos_port: None,
    }
}

fn first_match_exec(s: &Vec<DedicatedServerEntry>, kind: u8, port: i32, host: &[char]) -> (r: Option<usize>)
    requires
        kind <= 2,
    ensures
        match r {
            Some(i) => i < s@.len() && first_match(ev(s@), kind as nat, port, host@) == i,
            None => first_match(ev(s@), kind as nat, port, host@) == -1,
        },
{
    let lh = lower_vec(host);
    let mut i: usize = 0;
    while i < s.len()
        invariant
            i <= s@.len(),
            kind <= 2,
            lh@ == lower(host@),
            forall|k: int| 0 <= k < i ==> !claim_match(#[trigger] ev(s@)[k], kind as nat, port, host@),
        decreases s@.len() - i,
    {
        let e = &s[i];
        let needy = match e.engine_peer_udp_port {
            Some(p) => !is_usable_dedicated_game_udp_port(p),
            None => true,
        };
        let hit = if kind == 0 {
            e.engine_peer_udp_port == Some(port)
        } else if kind == 1 {
            needy && crate::text::chars_eq(&lower_vec(&peer_host_key(e.peer.as_str())), &lh)
        } else {
            needy
        };
        assert(ev(s@)[i as int] == e@);
        if hit {
            proof {
                lemma_first_match(ev(s@), kind as nat, port, host@, i as int);
            }
            return Some(i);
        }
        i = i + 1;
    }
    proof {
        lemma_first_match(ev(s@), kind as nat, port, host@, i as int);
    }
    None
}

fn needy_count_exec(s: &Vec<DedicatedServerEntry>) -> (n: usize)
    ensures
        n == needy_count(ev(s@)),
{
    let mut n: usize = 0;
    let mut i: usize = 0;
    while i < s.len()
        invariant
            i <= s@.len(),
            n == needy_count(ev(s@).subrange(0, i as int)),
            n <= i,
        decreases s@.len() - i,
    {
        assert(ev(s@).subrange(0, i + 1).drop_last() =~= ev(s@).subrange(0, i as int));
        assert(ev(s@)[i as int] == s@[i as int]@);
        let needy = match s[i].engine_peer_udp_port {
            Some(p) => !is_usable_dedicated_game_udp_port(p),
            None => true,
        };
        if needy {
            n = n + 1;
        }
        i = i + 1;
    }
    assert(ev(s@).subrange(0, i as int) =~= ev(s@));
    n
}

fn apply_prism_tcp_on_entry(
    e: &mut DedicatedServerEntry,
    msg_sys: Option<u16>,
    simu_cloud: Option<u16>,
    qos: Option<u16>,
)
    ensures
        final(e)@ == with_prism_ports(old(e)@, msg_sys, simu_cloud, qos),
{
    match msg_sys {
        Some(p) => if is_usable_prism_tcp_port(p) {
            e.msg_sys_tcp_port = Some(p);
        },
        None => {},
    }
    match simu_cloud {
        Some(p) => if is_usable_prism_tcp_port(p) {
            e.simu_cloud_tcp_port = Some(p);
        },
        None => {},
    }
    match qos {
        Some(p) => if is_usable_prism_tcp_port(p) {
            e.qos_port = Some(p);
        },
        None => {},
    }
}

fn apply_pending_on_entry(e: &mut DedicatedServerEntry, p: &PendingEnginePeer, now: u64)
    ensures
        final(e)@ == with_pending(old(e)@, p@, now),
{
    apply_prism_tcp_on_entry(e, p.msg_sys, p.simu_cloud, p.qos);
    e.engine_peer_udp_port = Some(p.port);
    e.last_event_unix_secs = now;
}

fn claim_target_exec(s: &Vec<DedicatedServerEntry>, p: &PendingEnginePeer) -> (r: Option<usize>)
    ensures
        match r {
            Some(i) => i < s@.len() && claim_target(ev(s@), p@) == i,
            None => claim_target(ev(s@), p@) == -1,
        },
{
    let empty: Vec<char> = Vec::new();
    proof {
        assert(empty@ =~= Seq::<char>::empty());
        lemma_claim_target_bound(ev(s@), p@);
    }
    match first_match_exec(s, 0, p.port, &empty) {
        Some(i) => return Some(i),
        None => {},
    }
    match &p.peer_host {
        Some(h) => {
            let hc = str_chars(h.as_str());
            match first_match_exec(s, 1, p.port, &hc) {
                Some(i) => return Some(i),
                None => {},
            }
        },
        None => {},
    }
    if needy_count_exec(s) == 1 {
        first_match_exec(s, 2, p.port, &empty)
    } else {
        None
    }
}

fn set_entry_pending(s: &mut Vec<DedicatedServerEntry>, t: usize, p: &PendingEnginePeer, now: u64)
    requires
        t < old(s)@.len(),
    ensures
        ev(final(s)@) == ev(old(s)@).update(t as int, with_pending(old(s)@[t as int]@, p@, now)),
{
    apply_pending_on_entry(&mut s[t], p, now);
    assert(ev(s@) =~= ev(old(s)@).update(t as int, with_pending(old(s)@[t as int]@, p@, now)));
}

/// The entries with the unclaimed reports' queue given to the pool after each
/// report has been offered to the entries, as `apply_pending` says.
fn apply_pending_vec(
    ents: Vec<DedicatedServerEntry>,
    q: Vec<PendingEnginePeer>,
    now: u64,
) -> (r: (Vec<DedicatedServerEntry>, Vec<PendingEnginePeer>))
    ensures
        (ev(r.0@), pv(r.1@)) == apply_pending(ev(ents@), pv(q@), now),
{
    if q.len() == 0 || ents.len() == 0 {
        return (ents, q);
    }
    let ghost s0 = ev(ents@);
    let ghost q0 = pv(q@);
    let mut ents = ents;
    let mut kept: Vec<PendingEnginePeer> = Vec::new();
    let mut i: usize = 0;
    assert(pv(kept@) =~= Seq::<PendingView>::empty());
    while i < q.len()
        invariant
            i <= q@.len(),
            q0 == pv(q@),
            q@.len() > 0,
            s0.len() > 0,
            (ev(ents@), pv(kept@)) == apply_pending_seq(s0, q0.subrange(0, i as int), now),
        decreases q@.len() - i,
    {
        proof {
            assert(q0.subrange(0, i + 1).drop_last() =~= q0.subrange(0, i as int));
            assert(q0.subrange(0, i + 1).last() == q@[i as int]@);
        }
        let p = &q[i];
        match claim_target_exec(&ents, p) {
            Some(t) => {
                set_entry_pending(&mut ents, t, p, now);
            },
            None => {
                if now.saturating_sub(p.noted_at_unix) < PENDING_ENGINE_PEER_TTL_SECS {
                    let c = clone_pending(p);
                    let ghost before = pv(kept@);
                    kept.push(c);
                    assert(pv(kept@) =~= before.push(p@));
                }
            },
        }
        i = i + 1;
    }
    assert(q0.subrange(0, i as int) =~= q0);
    (ents, kept)
}

pub struct IdentityView {
    pub session_id: u64,
    pub number: u32,
    pub name: Seq<char>,
    pub persona_id: u64,
}

impl View for DedicatedIdentity {
    type V = IdentityView;

    open spec fn view(&self) -> IdentityView {
        IdentityView {
            session_id: self.session_id,
            number: self.number,
            name: self.name@,
            persona_id: self.persona_id,
        }
    }
}

pub open spec fn iv(s: Seq<DedicatedIdentity>) -> Seq<IdentityView> {
    s.map_values(|x: DedicatedIdentity| x@)
}

pub open spec fn unique_identities(s: Seq<IdentityView>) -> bool {
    forall|i: int, j: int|
        0 <= i < j < s.len() ==> #[trigger] s[i].session_id != #[trigger] s[j].session_id
}

/// The JSON status line of the lobby pool at `now`.
pub open spec fn pool_status_text(entries: Seq<EntryView>, last: u64, now: u64) -> Seq<char> {
    let a = assignable_count(entries, now);
    "{\"idle\":"@ + dec(a) + ",\"assignable\":"@ + dec(a) + ",\"stabilizing\":"@ + dec(
        stabilizing_count(entries, now),
    ) + ",\"assignableIn\":"@ + dec(max_wait(entries, now) as nat) + ",\"creators\":"@ + dec(
        entries.len(),
    ) + ",\"lastNoDedicatedAt\":"@ + dec(last as nat) + ",\"noDedicated\":"@ + (if last > 0
        && sat_sub(now, last) <= 15 {
        "true"@
    } else {
        "false"@
    }) + "}"@
}


pub open spec fn with_pool_entries(p: PoolView, r: (Seq<EntryView>, Seq<PendingView>)) -> PoolView {
    PoolView { entries: r.0, pending: r.1, ..p }
}

/// The pool once session `sid` has an entry (a fresh one when it had none), with
/// the pending reports offered to the entries.
pub open spec fn ensure_spec(p: PoolView, sid: u64, now: u64) -> PoolView {
    let s1 = if entry_index(p.entries, sid) >= 0 {
        p.entries
    } else {
        inserted(p.entries, fresh_entry(sid, session_of(p.sessions, sid), now))
    };
    with_pool_entries(p, apply_pending(s1, p.pending, now))
}

/// The pool with the entry of session `sid` replaced by `e` (unchanged without one).
pub open spec fn update_entry(p: PoolView, sid: u64, e: EntryView) -> PoolView {
    let i = entry_index(p.entries, sid);
    if i >= 0 {
        PoolView { entries: p.entries.update(i, e), ..p }
    } else {
        p
    }
}

pub open spec fn opt_strref(v: Option<&str>) -> Option<Seq<char>> {
    match v {
        Some(s) => Some(s@),
        None => None,
    }
}

pub open spec fn map_spec(p: PoolView, sid: u64, map: Option<Seq<char>>, now: u64) -> PoolView {
    match entry_of(p.entries, sid) {
        Some(e) => update_entry(p, sid, EntryView { current_map: map, last_event_unix_secs: now, ..e }),
        None => p,
    }
}

pub open spec fn nonzero_or(v: Option<i32>, old: Option<i32>) -> Option<i32> {
    match v {
        Some(x) => if x != 0 {
            Some(x)
        } else {
            old
        },
        None => old,
    }
}

pub open spec fn usable_port_or(v: Option<i32>, old: Option<i32>) -> Option<i32> {
    match v {
        Some(x) => if usable_game_udp_port(x) {
            Some(x)
        } else {
            old
        },
        None => old,
    }
}

/// Addresses from `updateNetworkInfo`: non-zero IPs, and only ports that are
/// game-mesh ports (QoS reflection ports are ignored).
pub open spec fn with_network(
    e: EntryView,
    inip_ip: Option<i32>,
    inip_port: Option<i32>,
    exip_ip: Option<i32>,
    exip_port: Option<i32>,
    now: u64,
) -> EntryView {
    EntryView {
        network_inip_ip: nonzero_or(inip_ip, e.network_inip_ip),
        network_exip_ip: nonzero_or(exip_ip, e.network_exip_ip),
        network_inip_port: usable_port_or(inip_port, e.network_inip_port),
        network_exip_port: usable_port_or(exip_port, e.network_exip_port),
        last_event_unix_secs: now,
        ..e
    }
}

pub open spec fn network_spec(
    p: PoolView,
    sid: u64,
    inip_ip: Option<i32>,
    inip_port: Option<i32>,
    exip_ip: Option<i32>,
    exip_port: Option<i32>,
    now: u64,
) -> PoolView {
    if !peer_is_server(p.entries, p.sessions, sid) {
        p
    } else {
        let q = ensure_spec(p, sid, now);
        match entry_of(q.entries, sid) {
            Some(e) => update_entry(q, sid, with_network(e, inip_ip, inip_port, exip_ip, exip_port, now)),
            None => q,
        }
    }
}

pub open spec fn with_udp(e: EntryView, port: i32, now: u64) -> EntryView {
    EntryView { engine_peer_udp_port: Some(port), last_event_unix_secs: now, ..e }
}

/// EnginePeer game port for a session that is a dedicated server.
pub open spec fn udp_spec(p: PoolView, sid: u64, port: i32, now: u64) -> (bool, PoolView) {
    if !usable_game_udp_port(port) || !peer_is_server(p.entries, p.sessions, sid) {
        (false, p)
    } else {
        let q = ensure_spec(p, sid, now);
        match entry_of(q.entries, sid) {
            Some(e) => (true, update_entry(q, sid, with_udp(e, port, now))),
            None => (false, q),
        }
    }
}

/// Index of the last entry whose peer host is `host` (any ASCII case), or -1.
pub open spec fn last_host_match(s: Seq<EntryView>, host: Seq<char>) -> int
    decreases s.len(),
{
    if s.len() == 0 {
        -1
    } else if lower(peer_host_key_of(s.last().peer)) == lower(host) {
        s.len() - 1
    } else {
        last_host_match(s.drop_last(), host)
    }
}

proof fn lemma_last_host_match(s: Seq<EntryView>, host: Seq<char>, i: int)
    requires
        0 <= i <= s.len(),
        forall|k: int|
            i <= k < s.len() ==> lower(peer_host_key_of((#[trigger] s[k]).peer)) != lower(host),
    ensures
        last_host_match(s, host) == last_host_match(s.subrange(0, i), host),
        -1 <= last_host_match(s, host) < s.len(),
    decreases s.len() - i,
{
    if i < s.len() {
        assert(s.drop_last().subrange(0, i) =~= s.subrange(0, i));
        lemma_last_host_match(s.drop_last(), host, i);
    } else {
        assert(s.subrange(0, i) =~= s);
        lemma_last_host_match_bound(s, host);
    }
}

proof fn lemma_last_host_match_bound(s: Seq<EntryView>, host: Seq<char>)
    ensures
        -1 <= last_host_match(s, host) < s.len(),
    decreases s.len(),
{
    if s.len() > 0 {
        lemma_last_host_match_bound(s.drop_last(), host);
    }
}

/// EnginePeer port matched by the dedicated's peer host: the first such entry
/// still lacking a port, else the last one with that host.
pub open spec fn by_host_spec(p: PoolView, host: Seq<char>, port: i32, now: u64) -> (Option<u64>, PoolView) {
    let h = trim(host);
    if !usable_game_udp_port(port) || h.len() == 0 {
        (None, p)
    } else {
        let a = first_match(p.entries, 1, port, h);
        let i = if a >= 0 {
            a
        } else {
            last_host_match(p.entries, h)
        };
        if i < 0 {
            (None, p)
        } else {
            (
                Some(p.entries[i].blaze_session_id),
                PoolView { entries: p.entries.update(i, with_udp(p.entries[i], port, now)), ..p },
            )
        }
    }
}

/// EnginePeer port given to the only entry still lacking one, or to the only entry.
pub open spec fn sole_spec(p: PoolView, port: i32, now: u64) -> (Option<u64>, PoolView) {
    if !usable_game_udp_port(port) {
        (None, p)
    } else {
        let q = with_pool_entries(p, apply_pending(p.entries, p.pending, now));
        let i = if needy_count(q.entries) == 1 {
            first_match(q.entries, 2, port, Seq::empty())
        } else if q.entries.len() == 1 {
            0
        } else {
            -1
        };
        if i < 0 {
            (None, q)
        } else {
            (
                Some(q.entries[i].blaze_session_id),
                PoolView { entries: q.entries.update(i, with_udp(q.entries[i], port, now)), ..q },
            )
        }
    }
}

/// Queued reports that a new report for `port` (from `host`) leaves in place:
/// other ports, except host-less ones when the new report is host-less too.
pub open spec fn keep_pending(s: Seq<PendingView>, port: i32, host: Option<Seq<char>>) -> Seq<PendingView>
    decreases s.len(),
{
    if s.len() == 0 {
        s
    } else {
        let r = keep_pending(s.drop_last(), port, host);
        let x = s.last();
        if x.port != port && !(host is None && x.peer_host is None) {
            r.push(x)
        } else {
            r
        }
    }
}

pub open spec fn trimmed_host(host: Option<Seq<char>>) -> Option<Seq<char>> {
    match host {
        Some(x) => if trim(x).len() > 0 {
            Some(peer_host_key_of(trim(x)))
        } else {
            None
        },
        None => None,
    }
}

pub open spec fn stash_spec(
    p: PoolView,
    port: i32,
    host: Option<Seq<char>>,
    msg_sys: Option<u16>,
    simu_cloud: Option<u16>,
    qos: Option<u16>,
    now: u64,
) -> PoolView {
    if !usable_game_udp_port(port) {
        p
    } else {
        let h = trimmed_host(host);
        PoolView {
            pending: keep_pending(p.pending, port, h).push(
                PendingView { port, msg_sys, simu_cloud, qos, peer_host: h, noted_at_unix: now },
            ),
            ..p
        }
    }
}

pub open spec fn attach_spec(
    p: PoolView,
    sid: u64,
    msg_sys: Option<u16>,
    simu_cloud: Option<u16>,
    qos: Option<u16>,
) -> PoolView {
    match entry_of(p.entries, sid) {
        Some(e) => update_entry(p, sid, with_prism_ports(e, msg_sys, simu_cloud, qos)),
        None => p,
    }
}

pub open spec fn trimmed_nonempty_host(host: Option<Seq<char>>) -> Option<Seq<char>> {
    match host {
        Some(x) => if trim(x).len() > 0 {
            Some(trim(x))
        } else {
            None
        },
        None => None,
    }
}

/// An EnginePeer report: by the reporting session, by an entry already on that
/// game port, by peer host, by the sole entry lacking a port; else queued.
pub open spec fn report_spec(
    p: PoolView,
    sid: Option<u64>,
    host: Option<Seq<char>>,
    port: i32,
    msg_sys: Option<u16>,
    simu_cloud: Option<u16>,
    qos: Option<u16>,
    now: u64,
) -> (EnginePeerNote, PoolView) {
    if !usable_game_udp_port(port) {
        (EnginePeerNote::Rejected, p)
    } else {
        let given = match sid {
            Some(x) => x != 0,
            None => false,
        };
        let r1 = if given {
            udp_spec(p, sid.unwrap(), port, now)
        } else {
            (false, p)
        };
        if r1.0 {
            (
                EnginePeerNote::Applied { session: sid.unwrap() },
                attach_spec(r1.1, sid.unwrap(), msg_sys, simu_cloud, qos),
            )
        } else {
            let p1 = r1.1;
            let j = first_match(p1.entries, 0, port, Seq::empty());
            if j >= 0 {
                let x = p1.entries[j].blaze_session_id;
                (
                    EnginePeerNote::Applied { session: x },
                    attach_spec(udp_spec(p1, x, port, now).1, x, msg_sys, simu_cloud, qos),
                )
            } else {
                let r3 = match trimmed_nonempty_host(host) {
                    Some(h) => by_host_spec(p1, h, port, now),
                    None => (None, p1),
                };
                match r3.0 {
                    Some(x) => (
                        EnginePeerNote::Applied { session: x },
                        attach_spec(r3.1, x, msg_sys, simu_cloud, qos),
                    ),
                    None => {
                        let r4 = sole_spec(r3.1, port, now);
                        match r4.0 {
                            Some(x) => (
                                EnginePeerNote::Applied { session: x },
                                attach_spec(r4.1, x, msg_sys, simu_cloud, qos),
                            ),
                            None => (
                                EnginePeerNote::Pending,
                                stash_spec(r4.1, port, host, msg_sys, simu_cloud, qos, now),
                            ),
                        }
                    },
                }
            }
        }
    }
}


/// A recycling entry becomes idle once the native return cleared its unload
/// time, or once the unload is a full stabilization period old.
pub open spec fn promote_recycling(e: EntryView, now: u64) -> EntryView {
    if e.state != DedicatedPoolState::Recycling {
        e
    } else {
        match e.unload_requested_at {
            None => EntryView { state: DedicatedPoolState::Idle, last_event_unix_secs: now, ..e },
            Some(t) => if sat_sub(now, t) < RECYCLE_CMD220_STABILIZATION_SECS {
                e
            } else {
                EntryView {
                    unload_requested_at: None,
                    state: DedicatedPoolState::Idle,
                    last_event_unix_secs: now,
                    ..e
                }
            },
        }
    }
}

/// Promotion, then a settled idle entry forgets its unload time.
pub open spec fn promote(e: EntryView, now: u64) -> EntryView {
    let e1 = promote_recycling(e, now);
    if e1.state == DedicatedPoolState::Idle && wait_secs(e1, now) == 0 {
        EntryView { unload_requested_at: None, ..e1 }
    } else {
        e1
    }
}

pub open spec fn promote_all(s: Seq<EntryView>, now: u64) -> Seq<EntryView> {
    s.map_values(|e: EntryView| promote(e, now))
}

/// Entries whose session is still connected and that are registered or carry a
/// server `CLNT`.
pub open spec fn keeps_entry(e: EntryView, ss: Seq<SessionView>) -> bool {
    session_index(ss, e.blaze_session_id) >= 0 && (e.creator_registered || pool_candidate(e.clnt))
}

pub open spec fn retain_active(s: Seq<EntryView>, ss: Seq<SessionView>) -> Seq<EntryView>
    decreases s.len(),
{
    if s.len() == 0 {
        s
    } else {
        let r = retain_active(s.drop_last(), ss);
        if keeps_entry(s.last(), ss) {
            r.push(s.last())
        } else {
            r
        }
    }
}

/// The entry as first created from a session seen by a sync.
pub open spec fn entry_from_session(x: SessionView, now: u64) -> EntryView {
    EntryView {
        blaze_session_id: x.id,
        peer: x.peer,
        clnt: x.clnt,
        display_name: x.display_name,
        server_hostname: None,
        persona_id: x.persona_id,
        state: DedicatedPoolState::Connected,
        current_gid: None,
        game_name: None,
        last_event_unix_secs: now,
        creator_registered: false,
        current_map: None,
        previous_map: None,
        unload_requested_at: None,
        network_inip_ip: None,
        network_inip_port: None,
        network_exip_ip: None,
        network_exip_port: None,
        engine_peer_udp_port: None,
        msg_sys_tcp_port: None,
        simu_cloud_tcp_port: None,
        qos_port: None,
    }
}

/// A sync refreshes peer and client string; name and persona only before the
/// dedicated registered (registration assigns its own).
pub open spec fn upsert(e: EntryView, x: SessionView, now: u64) -> EntryView {
    EntryView {
        peer: x.peer,
        clnt: x.clnt,
        display_name: if e.creator_registered {
            e.display_name
        } else {
            x.display_name
        },
        persona_id: if e.creator_registered {
            e.persona_id
        } else {
            x.persona_id
        },
        last_event_unix_secs: now,
        ..e
    }
}

/// One session of a sync: a session that is neither registered nor a server
/// leaves the pool; any other gets an entry (created if missing) refreshed.
pub open spec fn sync_one(s: Seq<EntryView>, x: SessionView, now: u64) -> Seq<EntryView> {
    let i = entry_index(s, x.id);
    let registered = i >= 0 && s[i].creator_registered;
    if !registered && !pool_candidate(x.clnt) {
        if i >= 0 {
            s.remove(i)
        } else {
            s
        }
    } else {
        let base = if i >= 0 {
            s
        } else {
            inserted(s, entry_from_session(x, now))
        };
        let j = entry_index(base, x.id);
        base.update(j, upsert(base[j], x, now))
    }
}

pub open spec fn sync_all(s: Seq<EntryView>, ss: Seq<SessionView>, now: u64) -> Seq<EntryView>
    decreases ss.len(),
{
    if ss.len() == 0 {
        s
    } else {
        sync_one(sync_all(s, ss.drop_last(), now), ss.last(), now)
    }
}

/// The pool after a sync with the session registry at `now`.
pub open spec fn sync_spec(p: PoolView, ss: Seq<SessionView>, now: u64) -> PoolView {
    let s2 = sync_all(retain_active(p.entries, ss), ss, now);
    let r = apply_pending(s2, p.pending, now);
    PoolView { entries: promote_all(r.0, now), pending: r.1, sessions: ss, ..p }
}


fn session_pos(sessions: &Vec<BlazeSessionInfo>, sid: u64) -> (r: Option<usize>)
    ensures
        match r {
            Some(i) => i < sessions@.len() && session_index(sv(sessions@), sid) == i,
            None => session_index(sv(sessions@), sid) == -1,
        },
{
    let ghost s = sv(sessions@);
    let mut i: usize = 0;
    while i < sessions.len()
        invariant
            i <= sessions@.len(),
            s == sv(sessions@),
            forall|k: int| 0 <= k < i ==> (#[trigger] s[k]).id != sid,
        decreases sessions@.len() - i,
    {
        if sessions[i].id == sid {
            proof {
                lemma_session_index(s, sid, i as int);
            }
            return Some(i);
        }
        assert(s[i as int].id == sessions@[i as int].id);
        i = i + 1;
    }
    proof {
        lemma_session_index(s, sid, i as int);
    }
    None
}


/// Where the first assignable entry other than `exclude` sits, idle ones first
/// (by session id), then freshly registered ones; -1 if none.
pub open spec fn acquire_index(s: Seq<EntryView>, exclude: u64, now: u64) -> int {
    let a = first_acquirable(s, exclude, now, true);
    if a >= 0 {
        a
    } else {
        first_acquirable(s, exclude, now, false)
    }
}

pub open spec fn acquirable(e: EntryView, exclude: u64, now: u64, idle_only: bool) -> bool {
    e.blaze_session_id != exclude && assignable(e, now) && (!idle_only || e.state
        == DedicatedPoolState::Idle)
}

pub open spec fn first_acquirable(s: Seq<EntryView>, exclude: u64, now: u64, idle_only: bool) -> int
    decreases s.len(),
{
    if s.len() == 0 {
        -1
    } else if acquirable(s[0], exclude, now, idle_only) {
        0
    } else {
        let r = first_acquirable(s.drop_first(), exclude, now, idle_only);
        if r < 0 {
            -1
        } else {
            r + 1
        }
    }
}

proof fn lemma_first_acquirable_spec(s: Seq<EntryView>, exclude: u64, now: u64, idle_only: bool)
    ensures
        -1 <= first_acquirable(s, exclude, now, idle_only) < s.len(),
        first_acquirable(s, exclude, now, idle_only) >= 0 ==> acquirable(
            s[first_acquirable(s, exclude, now, idle_only)],
            exclude,
            now,
            idle_only,
        ),
        first_acquirable(s, exclude, now, idle_only) == -1 ==> forall|k: int|
            0 <= k < s.len() ==> !acquirable(#[trigger] s[k], exclude, now, idle_only),
    decreases s.len(),
{
    if s.len() > 0 {
        lemma_first_acquirable_spec(s.drop_first(), exclude, now, idle_only);
        if first_acquirable(s, exclude, now, idle_only) == -1 {
            assert forall|k: int| 0 <= k < s.len() implies !acquirable(#[trigger] s[k], exclude, now, idle_only) by {
                if k > 0 {
                    assert(s[k] == s.drop_first()[k - 1]);
                }
            }
        }
    }
}

/// A dedicated handed out for a match is assignable and is not the excluded
/// session; an assignable idle one is always preferred; none is handed out only
/// when no entry but the excluded one is assignable.
pub proof fn law_acquire_assignable(s: Seq<EntryView>, exclude: u64, now: u64)
    ensures
        acquire_index(s, exclude, now) >= 0 ==> ({
            let e = s[acquire_index(s, exclude, now)];
            &&& e.blaze_session_id != exclude
            &&& assignable(e, now)
        }),
        (exists|k: int| 0 <= k < s.len() && #[trigger] acquirable(s[k], exclude, now, true)) ==> acquire_index(
            s,
            exclude,
            now,
        ) >= 0 && s[acquire_index(s, exclude, now)].state == DedicatedPoolState::Idle,
        acquire_index(s, exclude, now) < 0 ==> forall|k: int|
            0 <= k < s.len() && (#[trigger] s[k]).blaze_session_id != exclude ==> !assignable(s[k], now),
{
    lemma_first_acquirable_spec(s, exclude, now, true);
    lemma_first_acquirable_spec(s, exclude, now, false);
    if acquire_index(s, exclude, now) < 0 {
        assert forall|k: int| 0 <= k < s.len() && (#[trigger] s[k]).blaze_session_id != exclude implies !assignable(s[k], now) by {
            assert(!acquirable(s[k], exclude, now, false));
        }
    }
}

/// A dedicated ready for a match: a registered creator, idle or freshly
/// registered (never in use, recycling or merely connected), with no unload
/// requested or at least the stabilization time passed since one (`now`).
pub open spec fn ready_for_match(e: EntryView, now: u64) -> bool {
    &&& e.creator_registered
    &&& (e.state == DedicatedPoolState::Idle || e.state == DedicatedPoolState::CreatorRegistered)
    &&& match e.unload_requested_at {
        Some(t) => t <= now && now - t >= 60,
        None => true,
    }
}

/// An entry counts as assignable exactly when it is ready for a match; so a
/// dedicated in use or recycling is never assignable.
pub proof fn law_assignable_is_ready(e: EntryView, now: u64)
    ensures
        assignable(e, now) <==> ready_for_match(e, now),
        e.state == DedicatedPoolState::InUse || e.state == DedicatedPoolState::Recycling
            || e.state == DedicatedPoolState::Connected ==> !assignable(e, now),
{
}

/// Acquire hands out only a dedicated ready for a match, never the excluded
/// session, an idle one whenever one is ready; and it hands out one whenever an
/// entry other than the excluded session is ready.
pub proof fn law_acquire_ready(s: Seq<EntryView>, exclude: u64, now: u64)
    ensures
        acquire_index(s, exclude, now) >= 0 ==> ({
            let e = s[acquire_index(s, exclude, now)];
            &&& e.blaze_session_id != exclude
            &&& ready_for_match(e, now)
            &&& e.state != DedicatedPoolState::InUse
            &&& e.state != DedicatedPoolState::Recycling
        }),
        (exists|k: int|
            0 <= k < s.len() && (#[trigger] s[k]).blaze_session_id != exclude && ready_for_match(s[k], now))
            ==> acquire_index(s, exclude, now) >= 0,
        (exists|k: int|
            0 <= k < s.len() && (#[trigger] s[k]).blaze_session_id != exclude && ready_for_match(s[k], now)
                && s[k].state == DedicatedPoolState::Idle) ==> s[acquire_index(s, exclude, now)].state
            == DedicatedPoolState::Idle,
{
    law_acquire_assignable(s, exclude, now);
    if exists|k: int|
        0 <= k < s.len() && (#[trigger] s[k]).blaze_session_id != exclude && ready_for_match(s[k], now) {
        let k = choose|k: int|
            0 <= k < s.len() && (#[trigger] s[k]).blaze_session_id != exclude && ready_for_match(s[k], now);
        assert(acquirable(s[k], exclude, now, false));
    }
    if exists|k: int|
        0 <= k < s.len() && (#[trigger] s[k]).blaze_session_id != exclude && ready_for_match(s[k], now)
            && s[k].state == DedicatedPoolState::Idle {
        let k = choose|k: int|
            0 <= k < s.len() && (#[trigger] s[k]).blaze_session_id != exclude && ready_for_match(s[k], now)
                && s[k].state == DedicatedPoolState::Idle;
        assert(acquirable(s[k], exclude, now, true));
    }
}

/// Once a reset binds match `gid` to dedicated `dedicated_session_id`, that
/// dedicated is in use for `gid`, the gid's assignment names it and the
/// client, and no later acquire (by anyone, at any time) hands it out again.
pub proof fn law_assigned_not_reacquired(
    p: PoolView,
    client_session_id: u64,
    gid: i64,
    dedicated_session_id: u64,
    host: DedicatedHostContext,
    wanted_map: Option<Seq<char>>,
    now: u64,
    exclude: u64,
    later: u64,
)
    requires
        sorted_ids(p.entries),
        unique_gids(p.assignments),
        entry_of(p.entries, dedicated_session_id) is Some,
    ensures
        ({
            let q = reset_assigned(p, client_session_id, gid, dedicated_session_id, host, wanted_map, now);
            &&& entry_of(q.entries, dedicated_session_id) matches Some(e) && e.state == DedicatedPoolState::InUse
                && e.current_gid == Some(gid)
            &&& assignment_of(q.assignments, gid) matches Some(a) && a.dedicated_session_id
                == dedicated_session_id && a.client_session_id == client_session_id
            &&& acquire_index(q.entries, exclude, later) >= 0 ==> q.entries[acquire_index(
                q.entries,
                exclude,
                later,
            )].blaze_session_id != dedicated_session_id
        }),
{
    let q = reset_assigned(p, client_session_id, gid, dedicated_session_id, host, wanted_map, now);
    let i = entry_index(p.entries, dedicated_session_id);
    assert(0 <= i < p.entries.len() && p.entries[i].blaze_session_id == dedicated_session_id);
    let s = q.entries;
    assert(s.len() == p.entries.len());
    assert forall|x: int| 0 <= x < s.len() implies #[trigger] s[x].blaze_session_id == p.entries[x].blaze_session_id by {
    }
    assert(sorted_ids(s)) by {
        assert forall|x: int, y: int| 0 <= x < y < s.len() implies #[trigger] s[x].blaze_session_id
            < #[trigger] s[y].blaze_session_id by {
            assert(s[x].blaze_session_id == p.entries[x].blaze_session_id);
            assert(s[y].blaze_session_id == p.entries[y].blaze_session_id);
        }
    }
    lemma_entry_index(s, dedicated_session_id, i);
    assert(s[i].state == DedicatedPoolState::InUse);
    // The assignment.
    let a = GameAssignment {
        gid,
        client_session_id,
        dedicated_session_id,
        host,
        assigned_at_unix: now,
    };
    lemma_drop_assignment(p.assignments, gid);
    let d = drop_assignment(p.assignments, gid);
    let t = d.push(a);
    assert(q.assignments == t);
    assert(unique_gids(d)) by {
        let j = assignment_index(p.assignments, gid);
        if j >= 0 {
            assert forall|x: int, y: int| 0 <= x < y < d.len() implies #[trigger] d[x].gid != #[trigger] d[y].gid by {
                let x2 = if x < j { x } else { x + 1 };
                let y2 = if y < j { y } else { y + 1 };
                assert(d[x] == p.assignments[x2]);
                assert(d[y] == p.assignments[y2]);
            }
        }
    }
    assert(unique_gids(t)) by {
        assert forall|x: int, y: int| 0 <= x < y < t.len() implies #[trigger] t[x].gid != #[trigger] t[y].gid by {
            if y == t.len() - 1 {
                assert(d[x].gid != gid);
            } else {
                assert(t[x] == d[x] && t[y] == d[y]);
            }
        }
    }
    lemma_assignment_index(t, gid, t.len() - 1);
    // No later acquire picks it.
    let k = acquire_index(s, exclude, later);
    if k >= 0 {
        law_acquire_assignable(s, exclude, later);
        lemma_first_acquirable_spec(s, exclude, later, true);
        lemma_first_acquirable_spec(s, exclude, later, false);
        if s[k].blaze_session_id == dedicated_session_id {
            lemma_entry_index(s, dedicated_session_id, k);
        }
    }
}

/// The pool after match `gid` is released: its assignment goes, and the
/// dedicated that served it (if it has an entry) is idle with no match, name
/// or map, as of `now`.
pub open spec fn released_pool(p: PoolView, gid: i64, now: u64) -> PoolView {
    let q = PoolView { assignments: drop_assignment(p.assignments, gid), ..p };
    match assignment_of(p.assignments, gid) {
        Some(a) => match entry_of(q.entries, a.dedicated_session_id) {
            Some(e) => update_entry(
                q,
                a.dedicated_session_id,
                EntryView {
                    state: DedicatedPoolState::Idle,
                    current_gid: None,
                    game_name: None,
                    current_map: None,
                    last_event_unix_secs: now,
                    ..e
                },
            ),
            None => q,
        },
        None => q,
    }
}

/// Releasing match `gid` frees its dedicated: the gid has no assignment any
/// more, and a registered dedicated with no unload pending is idle, holds no
/// match and is ready for one, so an acquire by any other session finds an
/// idle dedicated.
pub proof fn law_release_frees_dedicated(p: PoolView, gid: i64, now: u64, exclude: u64)
    requires
        sorted_ids(p.entries),
        unique_gids(p.assignments),
        assignment_of(p.assignments, gid) is Some,
        entry_of(p.entries, assignment_of(p.assignments, gid)->Some_0.dedicated_session_id) matches Some(e)
            && e.creator_registered && e.unload_requested_at is None,
        exclude != assignment_of(p.assignments, gid)->Some_0.dedicated_session_id,
    ensures
        ({
            let q = released_pool(p, gid, now);
            let sid = assignment_of(p.assignments, gid)->Some_0.dedicated_session_id;
            &&& assignment_of(q.assignments, gid) is None
            &&& entry_of(q.entries, sid) matches Some(e2) && e2.state == DedicatedPoolState::Idle
                && e2.current_gid is None && ready_for_match(e2, now)
            &&& acquire_index(q.entries, exclude, now) >= 0
            &&& q.entries[acquire_index(q.entries, exclude, now)].state == DedicatedPoolState::Idle
        }),
{
    let q = released_pool(p, gid, now);
    let sid = assignment_of(p.assignments, gid)->Some_0.dedicated_session_id;
    let i = entry_index(p.entries, sid);
    assert(0 <= i < p.entries.len() && p.entries[i].blaze_session_id == sid);
    let s = q.entries;
    assert(s.len() == p.entries.len());
    assert forall|x: int| 0 <= x < s.len() implies #[trigger] s[x].blaze_session_id == p.entries[x].blaze_session_id by {
    }
    assert(sorted_ids(s)) by {
        assert forall|x: int, y: int| 0 <= x < y < s.len() implies #[trigger] s[x].blaze_session_id
            < #[trigger] s[y].blaze_session_id by {
            assert(s[x].blaze_session_id == p.entries[x].blaze_session_id);
            assert(s[y].blaze_session_id == p.entries[y].blaze_session_id);
        }
    }
    lemma_entry_index(s, sid, i);
    lemma_drop_assignment(p.assignments, gid);
    let d = q.assignments;
    if assignment_index(d, gid) >= 0 {
        let j = assignment_index(d, gid);
        assert(d[j].gid == gid);
    }
    assert(acquirable(s[i], exclude, now, true));
    law_acquire_assignable(s, exclude, now);
}

/// The pool once dedicated `sid` reports it is back in the pool (with its
/// standby `gid`, if given): idle, no unload pending, no map or name.
pub open spec fn returned_pool(p: PoolView, sid: u64, gid: Option<i64>, now: u64) -> PoolView {
    match entry_of(p.entries, sid) {
        Some(e) => update_entry(
            p,
            sid,
            EntryView {
                state: DedicatedPoolState::Idle,
                unload_requested_at: None,
                current_map: None,
                game_name: None,
                last_event_unix_secs: now,
                current_gid: if gid is Some {
                    gid
                } else {
                    e.current_gid
                },
                ..e
            },
        ),
        None => p,
    }
}

/// The pool once dedicated `sid` reports match `gid` (named `name`) running.
pub open spec fn game_active_pool(p: PoolView, sid: u64, gid: i64, name: Option<Seq<char>>, now: u64) -> PoolView {
    match entry_of(p.entries, sid) {
        Some(e) => update_entry(
            p,
            sid,
            EntryView {
                state: DedicatedPoolState::InUse,
                current_gid: Some(gid),
                game_name: name,
                last_event_unix_secs: now,
                ..e
            },
        ),
        None => p,
    }
}

proof fn lemma_update_entry_same_ids(p: PoolView, sid: u64, e: EntryView)
    requires
        sorted_ids(p.entries),
        entry_of(p.entries, sid) is Some,
        e.blaze_session_id == sid,
    ensures
        update_entry(p, sid, e).entries.len() == p.entries.len(),
        sorted_ids(update_entry(p, sid, e).entries),
        entry_of(update_entry(p, sid, e).entries, sid) == Some(e),
{
    let i = entry_index(p.entries, sid);
    let s = update_entry(p, sid, e).entries;
    assert(0 <= i < p.entries.len() && p.entries[i].blaze_session_id == sid);
    assert(sorted_ids(s)) by {
        assert forall|x: int, y: int| 0 <= x < y < s.len() implies #[trigger] s[x].blaze_session_id
            < #[trigger] s[y].blaze_session_id by {
            assert(s[x].blaze_session_id == p.entries[x].blaze_session_id);
            assert(s[y].blaze_session_id == p.entries[y].blaze_session_id);
        }
    }
    lemma_entry_index(s, sid, i);
}

/// A dedicated running a match is in use for it and no acquire hands it out;
/// once it is back in the pool, a registered one is idle and ready for a
/// match again, and an acquire by any other session finds an idle dedicated.
pub proof fn law_active_then_returned(p: PoolView, sid: u64, gid: i64, name: Option<Seq<char>>, standby: Option<i64>, now: u64, later: u64, exclude: u64)
    requires
        sorted_ids(p.entries),
        entry_of(p.entries, sid) matches Some(e) && e.creator_registered,
        exclude != sid,
    ensures
        ({
            let a = game_active_pool(p, sid, gid, name, now);
            let r = returned_pool(a, sid, standby, later);
            &&& entry_of(a.entries, sid) matches Some(e1) && e1.state == DedicatedPoolState::InUse
                && e1.current_gid == Some(gid) && !ready_for_match(e1, later)
            &&& acquire_index(a.entries, exclude, later) >= 0 ==> a.entries[acquire_index(
                a.entries,
                exclude,
                later,
            )].blaze_session_id != sid
            &&& entry_of(r.entries, sid) matches Some(e2) && e2.state == DedicatedPoolState::Idle
                && ready_for_match(e2, later)
            &&& acquire_index(r.entries, exclude, later) >= 0
            &&& r.entries[acquire_index(r.entries, exclude, later)].state == DedicatedPoolState::Idle
        }),
{
    let e = entry_of(p.entries, sid)->Some_0;
    assert(e.blaze_session_id == sid);
    let e1 = EntryView {
        state: DedicatedPoolState::InUse,
        current_gid: Some(gid),
        game_name: name,
        last_event_unix_secs: now,
        ..e
    };
    lemma_update_entry_same_ids(p, sid, e1);
    let a = game_active_pool(p, sid, gid, name, now);
    let e2 = EntryView {
        state: DedicatedPoolState::Idle,
        unload_requested_at: None,
        current_map: None,
        game_name: None,
        last_event_unix_secs: later,
        current_gid: if standby is Some {
            standby
        } else {
            e1.current_gid
        },
        ..e1
    };
    lemma_update_entry_same_ids(a, sid, e2);
    let r = returned_pool(a, sid, standby, later);
    let s = a.entries;
    let k = acquire_index(s, exclude, later);
    if k >= 0 {
        law_acquire_assignable(s, exclude, later);
        lemma_first_acquirable_spec(s, exclude, later, true);
        lemma_first_acquirable_spec(s, exclude, later, false);
        if s[k].blaze_session_id == sid {
            lemma_entry_index(s, sid, k);
        }
    }
    let t = r.entries;
    let j = entry_index(t, sid);
    assert(0 <= j < t.len() && t[j] == e2);
    assert(acquirable(t[j], exclude, later, true));
    law_acquire_assignable(t, exclude, later);
}

proof fn lemma_first_acquirable(s: Seq<EntryView>, exclude: u64, now: u64, idle_only: bool, i: int)
    requires
        0 <= i <= s.len(),
        forall|k: int| 0 <= k < i ==> !acquirable(#[trigger] s[k], exclude, now, idle_only),
    ensures
        i < s.len() && acquirable(s[i], exclude, now, idle_only) ==> first_acquirable(
            s,
            exclude,
            now,
            idle_only,
        ) == i,
        i == s.len() ==> first_acquirable(s, exclude, now, idle_only) == -1,
    decreases i,
{
    if i > 0 {
        assert forall|k: int| 0 <= k < i - 1 implies !acquirable(
            #[trigger] s.drop_first()[k],
            exclude,
            now,
            idle_only,
        ) by {
            assert(s.drop_first()[k] == s[k + 1]);
        }
        lemma_first_acquirable(s.drop_first(), exclude, now, idle_only, i - 1);
    }
}

/// The first registered entry holding `gid` (its standby or current match).
pub open spec fn standby_index(s: Seq<EntryView>, gid: i64) -> int
    decreases s.len(),
{
    if s.len() == 0 {
        -1
    } else if s[0].creator_registered && s[0].current_gid == Some(gid) {
        0
    } else {
        let r = standby_index(s.drop_first(), gid);
        if r < 0 {
            -1
        } else {
            r + 1
        }
    }
}

proof fn lemma_standby_index(s: Seq<EntryView>, gid: i64, i: int)
    requires
        0 <= i <= s.len(),
        forall|k: int|
            0 <= k < i ==> !((#[trigger] s[k]).creator_registered && s[k].current_gid == Some(gid)),
    ensures
        i < s.len() && s[i].creator_registered && s[i].current_gid == Some(gid) ==> standby_index(
            s,
            gid,
        ) == i,
        i == s.len() ==> standby_index(s, gid) == -1,
    decreases i,
{
    if i > 0 {
        assert forall|k: int| 0 <= k < i - 1 implies !((#[trigger] s.drop_first()[k]).creator_registered
            && s.drop_first()[k].current_gid == Some(gid)) by {
            assert(s.drop_first()[k] == s[k + 1]);
        }
        lemma_standby_index(s.drop_first(), gid, i - 1);
    }
}

/// The first registered pool gid (10000 and up) held by an entry.
pub open spec fn registered_gid(s: Seq<EntryView>) -> Option<i64>
    decreases s.len(),
{
    if s.len() == 0 {
        None
    } else {
        match s[0].current_gid {
            Some(g) => if s[0].creator_registered && g > 0 && g >= 10_000 {
                Some(g)
            } else {
                registered_gid(s.drop_first())
            },
            None => registered_gid(s.drop_first()),
        }
    }
}

/// The first assignment served by dedicated `sid`.
pub open spec fn assignment_by_dedicated(s: Seq<GameAssignment>, sid: u64) -> int
    decreases s.len(),
{
    if s.len() == 0 {
        -1
    } else if s[0].dedicated_session_id == sid {
        0
    } else {
        let r = assignment_by_dedicated(s.drop_first(), sid);
        if r < 0 {
            -1
        } else {
            r + 1
        }
    }
}

proof fn lemma_assignment_by_dedicated(s: Seq<GameAssignment>, sid: u64, i: int)
    requires
        0 <= i <= s.len(),
        forall|k: int| 0 <= k < i ==> (#[trigger] s[k]).dedicated_session_id != sid,
    ensures
        i < s.len() && s[i].dedicated_session_id == sid ==> assignment_by_dedicated(s, sid) == i,
        i == s.len() ==> assignment_by_dedicated(s, sid) == -1,
    decreases i,
{
    if i > 0 {
        assert forall|k: int| 0 <= k < i - 1 implies (#[trigger] s.drop_first()[k]).dedicated_session_id
            != sid by {
            assert(s.drop_first()[k] == s[k + 1]);
        }
        lemma_assignment_by_dedicated(s.drop_first(), sid, i - 1);
    }
}

/// The dedicated bound to `gid`: by assignment, else the registered entry that
/// holds it, else the dedicated that the game registry records for it.
pub open spec fn bound_dedicated(p: PoolView, gid: i64, game_dedicated: Option<u64>) -> Option<u64> {
    let a = assignment_of(p.assignments, gid);
    let b = standby_index(p.entries, gid);
    match a {
        Some(x) => Some(x.dedicated_session_id),
        None => if b >= 0 {
            Some(p.entries[b].blaze_session_id)
        } else {
            game_dedicated
        },
    }
}

/// The assignments without the one for `gid`.
pub open spec fn drop_assignment(s: Seq<GameAssignment>, gid: i64) -> Seq<GameAssignment> {
    let i = assignment_index(s, gid);
    if i >= 0 {
        s.remove(i)
    } else {
        s
    }
}


/// Position of the identity of session `sid`, or -1.
pub open spec fn identity_index(s: Seq<IdentityView>, sid: u64) -> int {
    if exists|i: int| 0 <= i < s.len() && s[i].session_id == sid {
        choose|i: int| 0 <= i < s.len() && s[i].session_id == sid
    } else {
        -1
    }
}

pub open spec fn identity_of(s: Seq<IdentityView>, sid: u64) -> Option<IdentityView> {
    if identity_index(s, sid) >= 0 {
        Some(s[identity_index(s, sid)])
    } else {
        None
    }
}

proof fn lemma_identity_index(s: Seq<IdentityView>, sid: u64, i: int)
    requires
        unique_identities(s),
        0 <= i < s.len(),
        s[i].session_id == sid,
    ensures
        identity_index(s, sid) == i,
{
    let j = identity_index(s, sid);
    assert(0 <= j < s.len() && s[j].session_id == sid);
    if j != i {
        if j < i {
            assert(s[j].session_id != s[i].session_id);
        } else {
            assert(s[i].session_id != s[j].session_id);
        }
    }
}

pub open spec fn number_used(s: Seq<IdentityView>, n: int) -> bool {
    exists|i: int| 0 <= i < s.len() && s[i].number == n
}

/// `n` is the least positive number that no identity carries.
pub open spec fn least_free_number(s: Seq<IdentityView>, n: int) -> bool {
    n >= 1 && !number_used(s, n) && forall|m: int| 1 <= m < n ==> number_used(s, m)
}

proof fn lemma_numbers_pigeonhole(s: Seq<IdentityView>, k: int)
    requires
        0 <= k,
        forall|m: int| 1 <= m <= k ==> number_used(s, m),
    ensures
        k <= s.len(),
{
    let nums = s.map_values(|x: IdentityView| x.number as int);
    nums.lemma_cardinality_of_set();
    vstd::set_lib::lemma_int_range(1, k + 1);
    assert forall|m: int| vstd::set_lib::set_int_range(1, k + 1).contains(m) implies nums.to_set().contains(m) by {
        assert(number_used(s, m));
        let i = choose|i: int| 0 <= i < s.len() && s[i].number == m;
        assert(nums[i] == m);
    }
    vstd::seq_lib::seq_to_set_is_finite(nums);
    vstd::set_lib::lemma_len_subset(vstd::set_lib::set_int_range(1, k + 1), nums.to_set());
}

/// The dedicated persona range: the synthetic base plus less than 9 999 999 999.
pub open spec fn in_persona_range(p: u64) -> bool {
    DEDICATED_SYNTHETIC_PERSONA_BASE <= p < DEDICATED_SYNTHETIC_PERSONA_BASE + 9_999_999_999
}

/// `rand::Rng::gen_range(0..bound)` on the thread RNG: uniformly below `bound`.
#[verifier::external_body]
pub(crate) fn random_below(bound: u64) -> (r: u64)
    requires
        bound > 0,
    ensures
        r < bound,
{
    rand::thread_rng().gen_range(0..bound)
}


/// Assignments not served by dedicated `sid`.
pub open spec fn drop_dedicated_assignments(s: Seq<GameAssignment>, sid: u64) -> Seq<GameAssignment>
    decreases s.len(),
{
    if s.len() == 0 {
        s
    } else {
        let r = drop_dedicated_assignments(s.drop_last(), sid);
        if s.last().dedicated_session_id != sid {
            r.push(s.last())
        } else {
            r
        }
    }
}

pub open spec fn drop_entry(s: Seq<EntryView>, sid: u64) -> Seq<EntryView> {
    let i = entry_index(s, sid);
    if i >= 0 {
        s.remove(i)
    } else {
        s
    }
}

pub open spec fn drop_identity(s: Seq<IdentityView>, sid: u64) -> Seq<IdentityView> {
    let i = identity_index(s, sid);
    if i >= 0 {
        s.remove(i)
    } else {
        s
    }
}

/// The gid that reclaim notifications for dedicated `sid` go to: its assigned
/// match, else the hint, else the gid its entry holds (positive only).
pub open spec fn reclaim_gid(p: PoolView, sid: u64, hint: i64) -> Option<i64> {
    let a = assignment_by_dedicated(p.assignments, sid);
    if a >= 0 && p.assignments[a].gid > 0 {
        Some(p.assignments[a].gid)
    } else if hint > 0 {
        Some(hint)
    } else {
        match entry_of(p.entries, sid) {
            Some(e) => match e.current_gid {
                Some(g) => if g > 0 {
                    Some(g)
                } else {
                    None
                },
                None => None,
            },
            None => None,
        }
    }
}

pub open spec fn recent_reclaim(p: PoolView, sid: u64, now: u64) -> bool {
    match entry_of(p.entries, sid) {
        Some(e) => match e.unload_requested_at {
            Some(t) => e.state == DedicatedPoolState::Recycling && sat_sub(now, t)
                < RECLAIM_NOTIFY_COALESCE_SECS,
            None => false,
        },
        None => false,
    }
}

/// The entry as its unload is requested at `now`.
pub open spec fn with_unload(e: EntryView, now: u64) -> EntryView {
    EntryView {
        previous_map: if e.current_map is Some {
            e.current_map
        } else {
            e.previous_map
        },
        unload_requested_at: Some(now),
        state: DedicatedPoolState::Recycling,
        ..e
    }
}

/// The game port of a dedicated: its EnginePeer port, else a usable port from
/// its network info (internal first), else the default.
pub open spec fn game_port(e: EntryView) -> i32 {
    match e.engine_peer_udp_port {
        Some(p) if usable_game_udp_port(p) => p,
        _ => match e.network_inip_port {
            Some(p) if usable_game_udp_port(p) => p,
            _ => match e.network_exip_port {
                Some(p) if usable_game_udp_port(p) => p,
                _ => DEFAULT_DEDICATED_GAME_UDP_PORT,
            },
        },
    }
}

/// How a client reaches dedicated `e`: its own persona (a synthetic one when it
/// has none or shares the client's), its reported addresses, else the peer's
/// IPv4 (`peer_ipv4`), and its game port.
pub open spec fn host_context(e: EntryView, client_persona: u64, peer_ipv4: i32) -> DedicatedHostContext {
    let persona = match e.persona_id {
        Some(p) => if p != 0 && p != client_persona {
            p as i64
        } else {
            (900_000_000_000 + e.blaze_session_id) as i64
        },
        None => (900_000_000_000 + e.blaze_session_id) as i64,
    };
    let inip = match e.network_inip_ip {
        Some(ip) => if ip != 0 {
            ip
        } else {
            peer_ipv4
        },
        None => peer_ipv4,
    };
    let exip = match e.network_exip_ip {
        Some(ip) => if ip != 0 {
            ip
        } else {
            match e.network_inip_ip {
                Some(ip2) => if ip2 != 0 {
                    ip2
                } else {
                    inip
                },
                None => inip,
            }
        },
        None => match e.network_inip_ip {
            Some(ip2) => if ip2 != 0 {
                ip2
            } else {
                inip
            },
            None => inip,
        },
    };
    DedicatedHostContext {
        blaze_session_id: e.blaze_session_id,
        persona_id: persona,
        inip_ip: inip,
        inip_port: game_port(e),
        exip_ip: exip,
        exip_port: game_port(e),
    }
}


proof fn lemma_first_acquirable_bound(s: Seq<EntryView>, exclude: u64, now: u64, idle_only: bool)
    ensures
        -1 <= first_acquirable(s, exclude, now, idle_only) < s.len(),
    decreases s.len(),
{
    if s.len() > 0 {
        lemma_first_acquirable_bound(s.drop_first(), exclude, now, idle_only);
    }
}

proof fn lemma_acquire_bound(s: Seq<EntryView>, exclude: u64, now: u64)
    ensures
        -1 <= acquire_index(s, exclude, now) < s.len(),
{
    lemma_first_acquirable_bound(s, exclude, now, true);
    lemma_first_acquirable_bound(s, exclude, now, false);
}

proof fn lemma_drop_assignment(s: Seq<GameAssignment>, gid: i64)
    requires
        unique_gids(s),
    ensures
        forall|x: int| 0 <= x < drop_assignment(s, gid).len() ==> (#[trigger] drop_assignment(s, gid)[x]).gid != gid,
{
    let i = assignment_index(s, gid);
    if i >= 0 {
        assert forall|x: int| 0 <= x < drop_assignment(s, gid).len() implies (#[trigger] drop_assignment(s, gid)[x]).gid != gid by {
            if x < i {
                assert(s[x].gid != s[i].gid);
            } else {
                assert(s[i].gid != s[x + 1].gid);
            }
        }
    } else {
        assert forall|x: int| 0 <= x < s.len() implies s[x].gid != gid by {
            if s[x].gid == gid {
                assert(exists|k: int| 0 <= k < s.len() && s[k].gid == gid);
            }
        }
    }
}

/// The pool of dedicated servers, their match assignments, identities and
/// not-yet-claimed EnginePeer reports, with the last Blaze session snapshot.
pub struct DedicatedPool {
    entries: Vec<DedicatedServerEntry>,
    assignments: Vec<GameAssignment>,
    identities: Vec<DedicatedIdentity>,
    pending: Vec<PendingEnginePeer>,
    sessions: Vec<BlazeSessionInfo>,
    last_no_dedicated_unix: u64,
}


/// The whole pool as values.
pub struct PoolView {
    pub entries: Seq<EntryView>,
    pub assignments: Seq<GameAssignment>,
    pub identities: Seq<IdentityView>,
    pub pending: Seq<PendingView>,
    pub sessions: Seq<SessionView>,
    pub last_no_dedicated: u64,
}

impl View for DedicatedPool {
    type V = PoolView;

    closed spec fn view(&self) -> PoolView {
        PoolView {
            entries: ev(self.entries@),
            assignments: self.assignments@,
            identities: iv(self.identities@),
            pending: pv(self.pending@),
            sessions: sv(self.sessions@),
            last_no_dedicated: self.last_no_dedicated_unix,
        }
    }
}

/// The gid whose level unload a reclaim of `gid` on `sid` asks for: the live
/// match gid of the session, unless a notice went out moments ago.
pub open spec fn unload_target(p: PoolView, sid: u64, gid: i64, now: u64) -> Option<i64> {
    if reclaim_gid(p, sid, gid) is Some && !recent_reclaim(p, sid, now) {
        reclaim_gid(p, sid, gid)
    } else {
        None::<i64>
    }
}

/// The pool after that request: the entry of `sid` marked unloading.
pub open spec fn unloaded_pool(p: PoolView, sid: u64, gid: i64, now: u64) -> PoolView {
    if unload_target(p, sid, gid, now) is Some {
        match entry_of(p.entries, sid) {
            Some(e) => update_entry(p, sid, with_unload(e, now)),
            None => p,
        }
    } else {
        p
    }
}

/// A reclaim notice for `gid` went out moments ago.
pub open spec fn reclaim_recent(p: PoolView, gid: i64, game_dedicated: Option<u64>, now: u64) -> bool {
    match bound_dedicated(p, gid, game_dedicated) {
        Some(sid) => match entry_of(p.entries, sid) {
            Some(e) => match e.unload_requested_at {
                Some(t) => e.state == DedicatedPoolState::Recycling && sat_sub(now, t) < RECLAIM_NOTIFY_COALESCE_SECS,
                None => false,
            },
            None => false,
        },
        None => false,
    }
}

/// The pool after `gid` is reclaimed: its assignment dropped; the dedicated
/// bound to it goes recycling (keeping its gid, its map as the previous one).
pub open spec fn reclaimed_pool(p: PoolView, gid: i64, game_dedicated: Option<u64>, now: u64) -> PoolView {
    let q = PoolView {
        assignments: drop_assignment(p.assignments, gid),
        ..p
    };
    match bound_dedicated(p, gid, game_dedicated) {
        Some(sid) => match entry_of(q.entries, sid) {
            Some(e) => update_entry(
                q,
                sid,
                EntryView {
                    previous_map: if e.current_map is Some {
                        e.current_map
                    } else {
                        e.previous_map
                    },
                    state: DedicatedPoolState::Recycling,
                    game_name: None,
                    current_gid: Some(
                        match e.current_gid {
                            Some(g) => g,
                            None => gid,
                        },
                    ),
                    current_map: None,
                    last_event_unix_secs: now,
                    ..e
                },
            ),
            None => q,
        },
        None => q,
    }
}

impl DedicatedPool {
    #[verifier::type_invariant]
    spec fn inv(self) -> bool {
        &&& sorted_ids(ev(self.entries@))
        &&& unique_gids(self.assignments@)
        &&& unique_identities(iv(self.identities@))
    }







    pub fn new() -> (p: Self)
        ensures
            p@.entries == Seq::<EntryView>::empty(),
            p@.assignments == Seq::<GameAssignment>::empty(),
            p@.identities == Seq::<IdentityView>::empty(),
            p@.pending == Seq::<PendingView>::empty(),
            p@.sessions == Seq::<SessionView>::empty(),
            p@.last_no_dedicated == 0,
    {
        let p = DedicatedPool {
            entries: Vec::new(),
            assignments: Vec::new(),
            identities: Vec::new(),
            pending: Vec::new(),
            sessions: Vec::new(),
            last_no_dedicated_unix: 0,
        };
        assert(ev(p.entries@) =~= Seq::<EntryView>::empty());
        assert(iv(p.identities@) =~= Seq::<IdentityView>::empty());
        assert(pv(p.pending@) =~= Seq::<PendingView>::empty());
        assert(sv(p.sessions@) =~= Seq::<SessionView>::empty());
        p
    }

    fn find_entry(&self, sid: u64) -> (r: Option<usize>)
        ensures
            match r {
                Some(i) => i < self@.entries.len() && entry_index(self@.entries, sid) == i,
                None => entry_index(self@.entries, sid) == -1,
            },
    {
        proof {
            use_type_invariant(self);
        }
        let ghost s = ev(self.entries@);
        let mut i: usize = 0;
        while i < self.entries.len()
            invariant
                i <= self.entries@.len(),
                s == ev(self.entries@),
                sorted_ids(s),
                forall|k: int| 0 <= k < i ==> s[k].blaze_session_id != sid,
            decreases self.entries@.len() - i,
        {
            if self.entries[i].blaze_session_id == sid {
                proof {
                    lemma_entry_index(s, sid, i as int);
                }
                return Some(i);
            }
            i = i + 1;
        }
        None
    }

    fn find_assignment(&self, gid: i64) -> (r: Option<usize>)
        ensures
            match r {
                Some(i) => i < self@.assignments.len() && assignment_index(self@.assignments, gid)
                    == i,
                None => assignment_index(self@.assignments, gid) == -1,
            },
    {
        proof {
            use_type_invariant(self);
        }
        let mut i: usize = 0;
        while i < self.assignments.len()
            invariant
                i <= self.assignments@.len(),
                unique_gids(self.assignments@),
                forall|k: int| 0 <= k < i ==> self.assignments@[k].gid != gid,
            decreases self.assignments@.len() - i,
        {
            if self.assignments[i].gid == gid {
                proof {
                    lemma_assignment_index(self.assignments@, gid, i as int);
                }
                return Some(i);
            }
            i = i + 1;
        }
        None
    }

    fn find_session(&self, sid: u64) -> (r: Option<usize>)
        ensures
            match r {
                Some(i) => i < self@.sessions.len() && session_index(self@.sessions, sid) == i,
                None => session_index(self@.sessions, sid) == -1,
            },
    {
        let ghost s = sv(self.sessions@);
        let mut i: usize = 0;
        while i < self.sessions.len()
            invariant
                i <= self.sessions@.len(),
                s == sv(self.sessions@),
                forall|k: int| 0 <= k < i ==> (#[trigger] s[k]).id != sid,
            decreases self.sessions@.len() - i,
        {
            if self.sessions[i].id == sid {
                proof {
                    lemma_session_index(s, sid, i as int);
                }
                return Some(i);
            }
            assert(s[i as int].id == self.sessions@[i as int].id);
            i = i + 1;
        }
        proof {
            lemma_session_index(s, sid, i as int);
        }
        None
    }

    /// A copy of the entry for session `blaze_session_id`.
    pub fn get_entry(&self, blaze_session_id: u64) -> (r: Option<DedicatedServerEntry>)
        ensures
            opt_entry_view(r) == entry_of(self@.entries, blaze_session_id),
    {
        match self.find_entry(blaze_session_id) {
            Some(i) => Some(clone_entry(&self.entries[i])),
            None => None,
        }
    }

    /// Copies of all entries, by increasing session id.
    pub fn list_entries(&self) -> (v: Vec<DedicatedServerEntry>)
        ensures
            ev(v@) == self@.entries,
            sorted_ids(ev(v@)),
    {
        proof {
            use_type_invariant(self);
        }
        let mut v: Vec<DedicatedServerEntry> = Vec::new();
        let mut i: usize = 0;
        while i < self.entries.len()
            invariant
                i <= self.entries@.len(),
                ev(v@) == ev(self.entries@).subrange(0, i as int),
            decreases self.entries@.len() - i,
        {
            let ghost before = ev(v@);
            v.push(clone_entry(&self.entries[i]));
            assert(ev(v@) =~= before.push(self.entries@[i as int]@));
            assert(ev(self.entries@).subrange(0, i + 1) =~= ev(self.entries@).subrange(
                0,
                i as int,
            ).push(self.entries@[i as int]@));
            i = i + 1;
        }
        assert(ev(self.entries@).subrange(0, i as int) =~= ev(self.entries@));
        v
    }

    /// Records that a match request found no dedicated, at time `now`.
    pub fn note_no_dedicated_server(&mut self, now: u64)
        ensures
            final(self)@.last_no_dedicated == now,
            final(self)@.entries == old(self)@.entries,
            final(self)@.assignments == old(self)@.assignments,
            final(self)@.identities == old(self)@.identities,
            final(self)@.pending == old(self)@.pending,
            final(self)@.sessions == old(self)@.sessions,
    {
        proof {
            use_type_invariant(&*self);
        }
        self.last_no_dedicated_unix = now;
    }

    pub fn clear_no_dedicated_server(&mut self)
        ensures
            final(self)@.last_no_dedicated == 0,
            final(self)@.entries == old(self)@.entries,
            final(self)@.assignments == old(self)@.assignments,
            final(self)@.identities == old(self)@.identities,
            final(self)@.pending == old(self)@.pending,
            final(self)@.sessions == old(self)@.sessions,
    {
        proof {
            use_type_invariant(&*self);
        }
        self.last_no_dedicated_unix = 0;
    }

    pub fn last_no_dedicated_unix(&self) -> (t: u64)
        ensures
            t == self@.last_no_dedicated,
    {
        self.last_no_dedicated_unix
    }

    /// Entries that can take a match at `now`.
    pub fn assignable_creator_count(&self, now: u64) -> (n: usize)
        ensures
            n == assignable_count(self@.entries, now),
    {
        let ghost s = ev(self.entries@);
        let mut n: usize = 0;
        let mut i: usize = 0;
        while i < self.entries.len()
            invariant
                i <= self.entries@.len(),
                s == ev(self.entries@),
                n == assignable_count(s.subrange(0, i as int), now),
                n <= i,
            decreases self.entries@.len() - i,
        {
            assert(s.subrange(0, i + 1).drop_last() =~= s.subrange(0, i as int));
            assert(s[i as int] == self.entries@[i as int]@);
            if is_assignable(&self.entries[i], now) {
                n = n + 1;
            }
            i = i + 1;
        }
        assert(s.subrange(0, i as int) =~= s);
        n
    }

    /// Same as the assignable count.
    pub fn idle_creator_count(&self, now: u64) -> (n: usize)
        ensures
            n == assignable_count(self@.entries, now),
    {
        self.assignable_creator_count(now)
    }

    /// Registered entries still settling after an unload.
    pub fn stabilizing_creator_count(&self, now: u64) -> (n: usize)
        ensures
            n == stabilizing_count(self@.entries, now),
    {
        let ghost s = ev(self.entries@);
        let mut n: usize = 0;
        let mut i: usize = 0;
        while i < self.entries.len()
            invariant
                i <= self.entries@.len(),
                s == ev(self.entries@),
                n == stabilizing_count(s.subrange(0, i as int), now),
                n <= i,
            decreases self.entries@.len() - i,
        {
            assert(s.subrange(0, i + 1).drop_last() =~= s.subrange(0, i as int));
            assert(s[i as int] == self.entries@[i as int]@);
            let e = &self.entries[i];
            if e.creator_registered && !is_assignable(e, now) && (e.state
                == DedicatedPoolState::Recycling || e.state == DedicatedPoolState::Idle || e.state
                == DedicatedPoolState::CreatorRegistered) {
                n = n + 1;
            }
            i = i + 1;
        }
        assert(s.subrange(0, i as int) =~= s);
        n
    }

    /// Longest remaining wait among registered entries that cannot take a match yet.
    pub fn max_assignable_wait_secs(&self, now: u64) -> (w: u64)
        ensures
            w == max_wait(self@.entries, now),
    {
        let ghost s = ev(self.entries@);
        let mut m: u64 = 0;
        let mut i: usize = 0;
        while i < self.entries.len()
            invariant
                i <= self.entries@.len(),
                s == ev(self.entries@),
                m == max_wait(s.subrange(0, i as int), now),
            decreases self.entries@.len() - i,
        {
            assert(s.subrange(0, i + 1).drop_last() =~= s.subrange(0, i as int));
            assert(s[i as int] == self.entries@[i as int]@);
            let e = &self.entries[i];
            if e.creator_registered && !is_assignable(e, now) {
                let w = recycle_cmd220_wait_secs(e, now);
                if w > m {
                    m = w;
                }
            }
            i = i + 1;
        }
        assert(s.subrange(0, i as int) =~= s);
        m
    }

    /// The lobby's pool status JSON at `now`.
    pub fn lobby_pool_status_json(&self, now: u64) -> (j: String)
        ensures
            j@ == pool_status_text(self@.entries, self@.last_no_dedicated, now),
    {
        let a = self.assignable_creator_count(now);
        let st = self.stabilizing_creator_count(now);
        let w = self.max_assignable_wait_secs(now);
        let last = self.last_no_dedicated_unix;
        let creators = self.entries.len();
        let mut o: Vec<char> = Vec::new();
        push_str(&mut o, "{\"idle\":");
        push_dec(&mut o, a as u64);
        push_str(&mut o, ",\"assignable\":");
        push_dec(&mut o, a as u64);
        push_str(&mut o, ",\"stabilizing\":");
        push_dec(&mut o, st as u64);
        push_str(&mut o, ",\"assignableIn\":");
        push_dec(&mut o, w);
        push_str(&mut o, ",\"creators\":");
        push_dec(&mut o, creators as u64);
        push_str(&mut o, ",\"lastNoDedicatedAt\":");
        push_dec(&mut o, last);
        push_str(&mut o, ",\"noDedicated\":");
        if last > 0 && now.saturating_sub(last) <= 15 {
            push_str(&mut o, "true");
        } else {
            push_str(&mut o, "false");
        }
        push_str(&mut o, "}");
        chars_to_string(&o)
    }

    /// Whether the session has a pool entry that is registered or has a server `CLNT`.
    pub fn is_dedicated_blaze_session(&self, blaze_session_id: u64) -> (b: bool)
        ensures
            b == is_dedicated_session(self@.entries, blaze_session_id),
    {
        match self.find_entry(blaze_session_id) {
            Some(i) => self.entries[i].creator_registered || is_pool_candidate(
                &self.entries[i].clnt,
            ),
            None => false,
        }
    }

    /// Whether this Blaze session is a dedicated game server.
    pub fn blaze_wire_peer_is_server(&self, blaze_session_id: u64) -> (b: bool)
        ensures
            b == peer_is_server(self@.entries, self@.sessions, blaze_session_id),
    {
        if self.is_dedicated_blaze_session(blaze_session_id) {
            return true;
        }
        match self.find_session(blaze_session_id) {
            Some(i) => {
                assert(self@.sessions[i as int] == self.sessions@[i as int]@);
                is_pool_candidate(&self.sessions[i].clnt)
            },
            None => false,
        }
    }

    /// Tag name of the session's side in wire logs.
    pub fn blaze_wire_peer_label(&self, blaze_session_id: u64) -> (s: &'static str)
        ensures
            s@ == if peer_is_server(self@.entries, self@.sessions, blaze_session_id) {
                "Server"@
            } else {
                "Client"@
            },
    {
        if self.blaze_wire_peer_is_server(blaze_session_id) {
            "Server"
        } else {
            "Client"
        }
    }

    /// A wire-log line as shown for the session: server tags for a dedicated.
    pub fn normalize_blaze_wire_log_line(&self, blaze_session_id: u64, line: &str) -> (r: String)
        ensures
            r@ == normalized_wire_line(
                peer_is_server(self@.entries, self@.sessions, blaze_session_id),
                line@,
            ),
    {
        if !self.blaze_wire_peer_is_server(blaze_session_id) {
            let l = str_chars(line);
            return chars_to_string(&l);
        }
        rewrite_server_tags(line)
    }

    /// Offers each pending EnginePeer report to the entries, keeping the
    /// unclaimed ones that are younger than ten minutes.
    pub fn apply_pending_engine_peers(&mut self, now: u64)
        ensures
            (final(self)@.entries, final(self)@.pending) == apply_pending(
                old(self)@.entries,
                old(self)@.pending,
                now,
            ),
            final(self)@.assignments == old(self)@.assignments,
            final(self)@.identities == old(self)@.identities,
            final(self)@.sessions == old(self)@.sessions,
            final(self)@.last_no_dedicated == old(self)@.last_no_dedicated,
    {
        proof {
            use_type_invariant(&*self);
        }
        let ghost s0 = ev(self.entries@);
        let mut ents: Vec<DedicatedServerEntry> = Vec::new();
        std::mem::swap(&mut ents, &mut self.entries);
        let mut q: Vec<PendingEnginePeer> = Vec::new();
        std::mem::swap(&mut q, &mut self.pending);
        let (e2, q2) = apply_pending_vec(ents, q, now);
        proof {
            lemma_apply_pending_sorted(s0, old(self)@.pending, now);
        }
        self.entries = e2;
        self.pending = q2;
    }

    fn count_below_exec(&self, sid: u64) -> (n: usize)
        ensures
            n == count_below(self@.entries, sid),
    {
        let ghost s = ev(self.entries@);
        let mut n: usize = 0;
        let mut i: usize = 0;
        while i < self.entries.len()
            invariant
                i <= self.entries@.len(),
                s == ev(self.entries@),
                n == count_below(s.subrange(0, i as int), sid),
                n <= i,
            decreases self.entries@.len() - i,
        {
            assert(s.subrange(0, i + 1).drop_last() =~= s.subrange(0, i as int));
            assert(s[i as int] == self.entries@[i as int]@);
            if self.entries[i].blaze_session_id < sid {
                n = n + 1;
            }
            i = i + 1;
        }
        assert(s.subrange(0, i as int) =~= s);
        n
    }

    /// Adds an entry for a session that has none, keeping the id order.
    fn insert_entry(&mut self, e: DedicatedServerEntry)
        requires
            entry_index(old(self)@.entries, e.blaze_session_id) == -1,
        ensures
            final(self)@ == (PoolView { entries: inserted(old(self)@.entries, e@), ..old(self)@ }),
    {
        proof {
            use_type_invariant(&*self);
            lemma_inserted_sorted(self@.entries, e@);
        }
        let c = self.count_below_exec(e.blaze_session_id);
        proof {
            lemma_count_below(self@.entries, e.blaze_session_id);
        }
        let ghost before = self@.entries;
        let mut ents: Vec<DedicatedServerEntry> = Vec::new();
        std::mem::swap(&mut ents, &mut self.entries);
        ents.insert(c, e);
        assert(ev(ents@) =~= inserted(before, e@));
        self.entries = ents;
    }

    /// Replaces entry `i` by `e`, which has the same session id.
    fn set_entry(&mut self, i: usize, e: DedicatedServerEntry)
        requires
            i < old(self)@.entries.len(),
            e.blaze_session_id == old(self)@.entries[i as int].blaze_session_id,
        ensures
            final(self)@ == (PoolView { entries: old(self)@.entries.update(i as int, e@), ..old(self)@ }),
    {
        proof {
            use_type_invariant(&*self);
        }
        let ghost before = self@.entries;
        let mut ents: Vec<DedicatedServerEntry> = Vec::new();
        std::mem::swap(&mut ents, &mut self.entries);
        ents.set(i, e);
        assert(ev(ents@) =~= before.update(i as int, e@));
        assert(sorted_ids(ev(ents@))) by {
            assert forall|a: int, b: int| 0 <= a < b < ev(ents@).len() implies #[trigger] ev(
                ents@,
            )[a].blaze_session_id < #[trigger] ev(ents@)[b].blaze_session_id by {
                assert(before[a].blaze_session_id < before[b].blaze_session_id);
            }
        }
        self.entries = ents;
    }

    fn fresh_entry_exec(&self, sid: u64, now: u64) -> (e: DedicatedServerEntry)
        ensures
            e@ == fresh_entry(sid, session_of(self@.sessions, sid), now),
    {
        proof {
            lemma_session_index_bound(self@.sessions, sid);
        }
        let rts = chars_to_string(&str_chars("RtsBlazeServer"));
        match self.find_session(sid) {
            Some(i) => {
                let x = &self.sessions[i];
                assert(self@.sessions[i as int] == x@);
                DedicatedServerEntry {
                    blaze_session_id: sid,
                    peer: x.peer.clone(),
                    clnt: match &x.clnt {
                        Some(c) => Some(c.clone()),
                        None => Some(rts),
                    },
                    display_name: clone_opt_string(&x.display_name),
                    server_hostname: None,
                    persona_id: x.persona_id,
                    state: DedicatedPoolState::Connected,
                    current_gid: None,
                    game_name: None,
                    last_event_unix_secs: now,
                    creator_registered: false,
                    current_map: None,
                    previous_map: None,
                    unload_requested_at: None,
                    network_inip_ip: None,
                    network_inip_port: None,
                    network_exip_ip: None,
                    network_exip_port: None,
                    engine_peer_udp_port: None,
                    msg_sys_tcp_port: None,
                    simu_cloud_tcp_port: None,
                    qos_port: None,
                }
            },
            None => {
                let peer = String::new();
                assert(peer@ =~= Seq::<char>::empty());
                DedicatedServerEntry {
                    blaze_session_id: sid,
                    peer,
                    clnt: Some(rts),
                    display_name: None,
                    server_hostname: None,
                    persona_id: None,
                    state: DedicatedPoolState::Connected,
                    current_gid: None,
                    game_name: None,
                    last_event_unix_secs: now,
                    creator_registered: false,
                    current_map: None,
                    previous_map: None,
                    unload_requested_at: None,
                    network_inip_ip: None,
                    network_inip_port: None,
                    network_exip_ip: None,
                    network_exip_port: None,
                    engine_peer_udp_port: None,
                    msg_sys_tcp_port: None,
                    simu_cloud_tcp_port: None,
                    qos_port: None,
                }
            },
        }
    }

    /// Gives session `sid` a pool entry if it has none, then offers the pending
    /// EnginePeer reports.
    fn ensure_pool_entry(&mut self, blaze_session_id: u64, now: u64)
        ensures
            final(self)@ == ensure_spec(old(self)@, blaze_session_id, now),
    {
        if self.find_entry(blaze_session_id).is_none() {
            let e = self.fresh_entry_exec(blaze_session_id, now);
            self.insert_entry(e);
        }
        self.apply_pending_engine_peers(now);
    }

    /// Records the map a dedicated is serving.
    pub fn note_dedicated_map(&mut self, blaze_session_id: u64, map_path: Option<&str>, now: u64)
        ensures
            final(self)@ == map_spec(old(self)@, blaze_session_id, opt_strref(map_path), now),
    {
        match self.find_entry(blaze_session_id) {
            Some(i) => {
                let mut e = clone_entry(&self.entries[i]);
                e.current_map = match map_path {
                    Some(m) => Some(chars_to_string(&str_chars(m))),
                    None => None,
                };
                e.last_event_unix_secs = now;
                self.set_entry(i, e);
            },
            None => {},
        }
    }

    /// Stores the addresses of a dedicated's `updateNetworkInfo` (dedicated
    /// sessions only; QoS-range ports are ignored).
    pub fn note_dedicated_network(
        &mut self,
        blaze_session_id: u64,
        inip_ip: Option<i32>,
        inip_port: Option<i32>,
        exip_ip: Option<i32>,
        exip_port: Option<i32>,
        now: u64,
    )
        ensures
            final(self)@ == network_spec(
                old(self)@,
                blaze_session_id,
                inip_ip,
                inip_port,
                exip_ip,
                exip_port,
                now,
            ),
    {
        if !self.blaze_wire_peer_is_server(blaze_session_id) {
            return;
        }
        self.ensure_pool_entry(blaze_session_id, now);
        match self.find_entry(blaze_session_id) {
            Some(i) => {
                let mut e = clone_entry(&self.entries[i]);
                match inip_ip {
                    Some(ip) => if ip != 0 {
                        e.network_inip_ip = Some(ip);
                    },
                    None => {},
                }
                match exip_ip {
                    Some(ip) => if ip != 0 {
                        e.network_exip_ip = Some(ip);
                    },
                    None => {},
                }
                match inip_port {
                    Some(p) => if is_usable_dedicated_game_udp_port(p) {
                        e.network_inip_port = Some(p);
                    },
                    None => {},
                }
                match exip_port {
                    Some(p) => if is_usable_dedicated_game_udp_port(p) {
                        e.network_exip_port = Some(p);
                    },
                    None => {},
                }
                e.last_event_unix_secs = now;
                self.set_entry(i, e);
            },
            None => {},
        }
    }

    /// Records the EnginePeer game port of a dedicated session.
    pub fn note_dedicated_engine_peer_udp(&mut self, blaze_session_id: u64, port: i32, now: u64) -> (b: bool)
        ensures
            (b, final(self)@) == udp_spec(old(self)@, blaze_session_id, port, now),
    {
        if !is_usable_dedicated_game_udp_port(port) {
            return false;
        }
        if !self.blaze_wire_peer_is_server(blaze_session_id) {
            return false;
        }
        self.ensure_pool_entry(blaze_session_id, now);
        match self.find_entry(blaze_session_id) {
            Some(i) => {
                let mut e = clone_entry(&self.entries[i]);
                e.engine_peer_udp_port = Some(port);
                e.last_event_unix_secs = now;
                self.set_entry(i, e);
                true
            },
            None => false,
        }
    }

    fn last_host_match_exec(&self, host: &[char]) -> (r: Option<usize>)
        ensures
            match r {
                Some(i) => i < self@.entries.len() && last_host_match(self@.entries, host@) == i,
                None => last_host_match(self@.entries, host@) == -1,
            },
    {
        let ghost s = ev(self.entries@);
        let lh = lower_vec(host);
        let mut i: usize = self.entries.len();
        while i > 0
            invariant
                i <= self.entries@.len(),
                s == ev(self.entries@),
                lh@ == lower(host@),
                forall|k: int|
                    i <= k < s.len() ==> lower(peer_host_key_of((#[trigger] s[k]).peer)) != lower(
                        host@,
                    ),
            decreases i,
        {
            assert(s[i - 1] == self.entries@[i - 1]@);
            let key = lower_vec(&peer_host_key(self.entries[i - 1].peer.as_str()));
            if crate::text::chars_eq(&key, &lh) {
                proof {
                    lemma_last_host_match(s, host@, i as int);
                    assert(s.subrange(0, i as int).last() == s[i - 1]);
                }
                return Some(i - 1);
            }
            i = i - 1;
        }
        proof {
            lemma_last_host_match(s, host@, 0);
        }
        None
    }

    /// Records an EnginePeer port for the dedicated whose peer host is `peer_host`.
    pub fn note_dedicated_engine_peer_udp_by_peer_host(&mut self, peer_host: &str, port: i32, now: u64) -> (r: Option<u64>)
        ensures
            (r, final(self)@) == by_host_spec(old(self)@, peer_host@, port, now),
    {
        if !is_usable_dedicated_game_udp_port(port) {
            return None;
        }
        let h = trim_vec(&str_chars(peer_host));
        if h.len() == 0 {
            return None;
        }
        proof {
            lemma_first_match_bound(self@.entries, 1, port, h@);
        }
        let i = match first_match_exec(&self.entries, 1, port, &h) {
            Some(i) => i,
            None => match self.last_host_match_exec(&h) {
                Some(i) => i,
                None => return None,
            },
        };
        let mut e = clone_entry(&self.entries[i]);
        let sid = e.blaze_session_id;
        e.engine_peer_udp_port = Some(port);
        e.last_event_unix_secs = now;
        self.set_entry(i, e);
        Some(sid)
    }

    /// Records an EnginePeer port for the only entry still lacking one (or the
    /// only entry), after the pending reports have been offered.
    pub fn note_dedicated_engine_peer_udp_sole(&mut self, port: i32, now: u64) -> (r: Option<u64>)
        ensures
            (r, final(self)@) == sole_spec(old(self)@, port, now),
    {
        if !is_usable_dedicated_game_udp_port(port) {
            return None;
        }
        self.apply_pending_engine_peers(now);
        let empty: Vec<char> = Vec::new();
        assert(empty@ =~= Seq::<char>::empty());
        proof {
            lemma_first_match_bound(self@.entries, 2, port, Seq::empty());
        }
        let i = if needy_count_exec(&self.entries) == 1 {
            match first_match_exec(&self.entries, 2, port, &empty) {
                Some(i) => i,
                None => return None,
            }
        } else if self.entries.len() == 1 {
            0
        } else {
            return None;
        };
        let mut e = clone_entry(&self.entries[i]);
        let sid = e.blaze_session_id;
        e.engine_peer_udp_port = Some(port);
        e.last_event_unix_secs = now;
        self.set_entry(i, e);
        Some(sid)
    }

    fn stash_pending_engine_peer(
        &mut self,
        port: i32,
        peer_host: Option<&str>,
        msg_sys: Option<u16>,
        simu_cloud: Option<u16>,
        qos: Option<u16>,
        now: u64,
    )
        ensures
            final(self)@ == stash_spec(
                old(self)@,
                port,
                opt_strref(peer_host),
                msg_sys,
                simu_cloud,
                qos,
                now,
            ),
    {
        proof {
            use_type_invariant(&*self);
        }
        if !is_usable_dedicated_game_udp_port(port) {
            return;
        }
        let host: Option<String> = match peer_host {
            Some(x) => {
                let t = trim_vec(&str_chars(x));
                if t.len() > 0 {
                    let k = peer_host_key(chars_to_string(&t).as_str());
                    Some(chars_to_string(&k))
                } else {
                    None
                }
            },
            None => None,
        };
        let ghost h = opt_str(host);
        assert(h == trimmed_host(opt_strref(peer_host)));
        let ghost q0 = pv(self.pending@);
        let mut kept: Vec<PendingEnginePeer> = Vec::new();
        let mut i: usize = 0;
        assert(pv(kept@) =~= keep_pending(q0.subrange(0, 0), port, h));
        while i < self.pending.len()
            invariant
                i <= self.pending@.len(),
                q0 == pv(self.pending@),
                h == opt_str(host),
                pv(kept@) == keep_pending(q0.subrange(0, i as int), port, h),
            decreases self.pending@.len() - i,
        {
            assert(q0.subrange(0, i + 1).drop_last() =~= q0.subrange(0, i as int));
            assert(q0.subrange(0, i + 1).last() == self.pending@[i as int]@);
            let x = &self.pending[i];
            if x.port != port && !(host.is_none() && x.peer_host.is_none()) {
                let ghost before = pv(kept@);
                kept.push(clone_pending(x));
                assert(pv(kept@) =~= before.push(x@));
            }
            i = i + 1;
        }
        assert(q0.subrange(0, i as int) =~= q0);
        let ghost before = pv(kept@);
        let np = PendingEnginePeer {
            port,
            msg_sys,
            simu_cloud,
            qos,
            peer_host: host,
            noted_at_unix: now,
        };
        kept.push(np);
        assert(pv(kept@) =~= before.push(
            PendingView { port, msg_sys, simu_cloud, qos, peer_host: h, noted_at_unix: now },
        ));
        self.pending = kept;
    }

    fn attach_prism_tcp_ports(
        &mut self,
        blaze_session_id: u64,
        msg_sys: Option<u16>,
        simu_cloud: Option<u16>,
        qos: Option<u16>,
    )
        ensures
            final(self)@ == attach_spec(old(self)@, blaze_session_id, msg_sys, simu_cloud, qos),
    {
        match self.find_entry(blaze_session_id) {
            Some(i) => {
                let mut e = clone_entry(&self.entries[i]);
                apply_prism_tcp_on_entry(&mut e, msg_sys, simu_cloud, qos);
                self.set_entry(i, e);
            },
            None => {},
        }
    }

    /// A Prism EnginePeer report (session and peer host optional): applied to the
    /// matching dedicated, or kept until one registers; refused for ports that
    /// are not game-mesh ports.
    pub fn note_dedicated_engine_peer_report(
        &mut self,
        blaze_session_id: Option<u64>,
        peer_host: Option<&str>,
        port: i32,
        msg_sys: Option<u16>,
        simu_cloud: Option<u16>,
        qos: Option<u16>,
        now: u64,
    ) -> (n: EnginePeerNote)
        ensures
            (n, final(self)@) == report_spec(
                old(self)@,
                blaze_session_id,
                opt_strref(peer_host),
                port,
                msg_sys,
                simu_cloud,
                qos,
                now,
            ),
    {
        if !is_usable_dedicated_game_udp_port(port) {
            return EnginePeerNote::Rejected;
        }
        match blaze_session_id {
            Some(sid) => if sid != 0 {
                if self.note_dedicated_engine_peer_udp(sid, port, now) {
                    self.attach_prism_tcp_ports(sid, msg_sys, simu_cloud, qos);
                    return EnginePeerNote::Applied { session: sid };
                }
            },
            None => {},
        }
        let empty: Vec<char> = Vec::new();
        assert(empty@ =~= Seq::<char>::empty());
        proof {
            lemma_first_match_bound(self@.entries, 0, port, Seq::empty());
        }
        match first_match_exec(&self.entries, 0, port, &empty) {
            Some(j) => {
                let sid = self.entries[j].blaze_session_id;
                let _ = self.note_dedicated_engine_peer_udp(sid, port, now);
                self.attach_prism_tcp_ports(sid, msg_sys, simu_cloud, qos);
                return EnginePeerNote::Applied { session: sid };
            },
            None => {},
        }
        match peer_host {
            Some(h) => {
                let t = trim_vec(&str_chars(h));
                if t.len() > 0 {
                    let ts = chars_to_string(&t);
                    match self.note_dedicated_engine_peer_udp_by_peer_host(ts.as_str(), port, now) {
                        Some(sid) => {
                            self.attach_prism_tcp_ports(sid, msg_sys, simu_cloud, qos);
                            return EnginePeerNote::Applied { session: sid };
                        },
                        None => {},
                    }
                }
            },
            None => {},
        }
        match self.note_dedicated_engine_peer_udp_sole(port, now) {
            Some(sid) => {
                self.attach_prism_tcp_ports(sid, msg_sys, simu_cloud, qos);
                return EnginePeerNote::Applied { session: sid };
            },
            None => {},
        }
        self.stash_pending_engine_peer(port, peer_host, msg_sys, simu_cloud, qos, now);
        EnginePeerNote::Pending
    }


    fn remove_entry_at(&mut self, i: usize)
        requires
            i < old(self)@.entries.len(),
        ensures
            final(self)@ == (PoolView { entries: old(self)@.entries.remove(i as int), ..old(self)@ }),
    {
        proof {
            use_type_invariant(&*self);
        }
        let ghost before = self@.entries;
        let mut ents: Vec<DedicatedServerEntry> = Vec::new();
        std::mem::swap(&mut ents, &mut self.entries);
        ents.remove(i);
        assert(ev(ents@) =~= before.remove(i as int));
        assert(sorted_ids(ev(ents@))) by {
            let t = ev(ents@);
            assert forall|a: int, b: int| 0 <= a < b < t.len() implies #[trigger] t[a].blaze_session_id
                < #[trigger] t[b].blaze_session_id by {
                if b < i {
                    assert(before[a].blaze_session_id < before[b].blaze_session_id);
                } else if a < i {
                    assert(before[a].blaze_session_id < before[b + 1].blaze_session_id);
                } else {
                    assert(before[a + 1].blaze_session_id < before[b + 1].blaze_session_id);
                }
            }
        }
        self.entries = ents;
    }

    fn retain_active_entries(&mut self, sessions: &Vec<BlazeSessionInfo>)
        ensures
            final(self)@ == (PoolView {
                entries: retain_active(old(self)@.entries, sv(sessions@)),
                ..old(self)@
            }),
    {
        proof {
            use_type_invariant(&*self);
        }
        let ghost s = self@.entries;
        let ghost ss = sv(sessions@);
        let mut ents: Vec<DedicatedServerEntry> = Vec::new();
        std::mem::swap(&mut ents, &mut self.entries);
        let mut kept: Vec<DedicatedServerEntry> = Vec::new();
        let mut i: usize = 0;
        assert(ev(kept@) =~= retain_active(s.subrange(0, 0), ss));
        while i < ents.len()
            invariant
                i <= ents@.len(),
                s == ev(ents@),
                ss == sv(sessions@),
                sorted_ids(s),
                sorted_ids(ev(kept@)),
                ev(kept@) == retain_active(s.subrange(0, i as int), ss),
                forall|a: int, b: int|
                    0 <= a < kept@.len() && i <= b < s.len() ==> (#[trigger] ev(kept@)[a]).blaze_session_id
                        < (#[trigger] s[b]).blaze_session_id,
            decreases ents@.len() - i,
        {
            assert(s.subrange(0, i + 1).drop_last() =~= s.subrange(0, i as int));
            assert(s[i as int] == ents@[i as int]@);
            let e = &ents[i];
            let active = session_pos(sessions, e.blaze_session_id).is_some();
            if active && (e.creator_registered || is_pool_candidate(&e.clnt)) {
                let ghost before = ev(kept@);
                kept.push(clone_entry(e));
                assert(ev(kept@) =~= before.push(s[i as int]));
                assert forall|a: int, b: int| 0 <= a < kept@.len() && i + 1 <= b < s.len() implies (#[trigger] ev(kept@)[a]).blaze_session_id
                    < (#[trigger] s[b]).blaze_session_id by {
                    if a < before.len() {
                        assert(before[a].blaze_session_id < s[b].blaze_session_id);
                    } else {
                        assert(s[i as int].blaze_session_id < s[b].blaze_session_id);
                    }
                }
            }
            i = i + 1;
        }
        assert(s.subrange(0, i as int) =~= s);
        self.entries = kept;
    }

    fn sync_session(&mut self, x: &BlazeSessionInfo, now: u64)
        ensures
            final(self)@ == (PoolView { entries: sync_one(old(self)@.entries, x@, now), ..old(self)@ }),
    {
        proof {
            use_type_invariant(&*self);
        }
        let found = self.find_entry(x.id);
        let registered = match found {
            Some(i) => self.entries[i].creator_registered,
            None => false,
        };
        if !registered && !is_pool_candidate(&x.clnt) {
            match found {
                Some(i) => self.remove_entry_at(i),
                None => {},
            }
            return;
        }
        if found.is_none() {
            let e = DedicatedServerEntry {
                blaze_session_id: x.id,
                peer: x.peer.clone(),
                clnt: clone_opt_string(&x.clnt),
                display_name: clone_opt_string(&x.display_name),
                server_hostname: None,
                persona_id: x.persona_id,
                state: DedicatedPoolState::Connected,
                current_gid: None,
                game_name: None,
                last_event_unix_secs: now,
                creator_registered: false,
                current_map: None,
                previous_map: None,
                unload_requested_at: None,
                network_inip_ip: None,
                network_inip_port: None,
                network_exip_ip: None,
                network_exip_port: None,
                engine_peer_udp_port: None,
                msg_sys_tcp_port: None,
                simu_cloud_tcp_port: None,
                qos_port: None,
            };
            assert(e@ == entry_from_session(x@, now));
            self.insert_entry(e);
            proof {
                lemma_inserted_sorted(old(self)@.entries, entry_from_session(x@, now));
            }
        }
        match self.find_entry(x.id) {
            Some(j) => {
                let mut e = clone_entry(&self.entries[j]);
                e.peer = x.peer.clone();
                e.clnt = clone_opt_string(&x.clnt);
                if !e.creator_registered {
                    e.display_name = clone_opt_string(&x.display_name);
                    e.persona_id = x.persona_id;
                }
                e.last_event_unix_secs = now;
                self.set_entry(j, e);
            },
            None => {},
        }
    }

    fn promote_all_recycling(&mut self, now: u64)
        ensures
            final(self)@ == (PoolView { entries: promote_all(old(self)@.entries, now), ..old(self)@ }),
    {
        let ghost s0 = self@.entries;
        let mut i: usize = 0;
        while i < self.entries.len()
            invariant
                i <= self@.entries.len(),
                s0.len() == self@.entries.len(),
                forall|k: int| 0 <= k < i ==> self@.entries[k] == promote(#[trigger] s0[k], now),
                forall|k: int| i <= k < s0.len() ==> #[trigger] self@.entries[k] == s0[k],
                self@ == (PoolView { entries: self@.entries, ..old(self)@ }),
            decreases self@.entries.len() - i,
        {
            let mut e = clone_entry(&self.entries[i]);
            if e.state == DedicatedPoolState::Recycling {
                match e.unload_requested_at {
                    None => {
                        e.state = DedicatedPoolState::Idle;
                        e.last_event_unix_secs = now;
                    },
                    Some(t) => {
                        if now.saturating_sub(t) >= RECYCLE_CMD220_STABILIZATION_SECS {
                            e.unload_requested_at = None;
                            e.state = DedicatedPoolState::Idle;
                            e.last_event_unix_secs = now;
                        }
                    },
                }
            }
            if e.state == DedicatedPoolState::Idle && recycle_cmd220_wait_secs(&e, now) == 0 {
                e.unload_requested_at = None;
            }
            assert(e@ == promote(s0[i as int], now));
            self.set_entry(i, e);
            i = i + 1;
        }
        assert(self@.entries =~= promote_all(s0, now));
    }

    /// Brings the pool in line with the Blaze session registry at `now`: gone or
    /// non-server sessions leave, server sessions get fresh entries, pending
    /// EnginePeer reports are offered, and settled recycling entries turn idle.
    pub fn sync_from_blaze_sessions(&mut self, sessions: Vec<BlazeSessionInfo>, now: u64)
        ensures
            final(self)@ == sync_spec(old(self)@, sv(sessions@), now),
    {
        proof {
            use_type_invariant(&*self);
        }
        self.retain_active_entries(&sessions);
        let ghost s1 = self@.entries;
        let mut i: usize = 0;
        while i < sessions.len()
            invariant
                i <= sessions@.len(),
                self@ == (PoolView {
                    entries: sync_all(s1, sv(sessions@).subrange(0, i as int), now),
                    ..old(self)@
                }),
            decreases sessions@.len() - i,
        {
            assert(sv(sessions@).subrange(0, i + 1).drop_last() =~= sv(sessions@).subrange(0, i as int));
            assert(sv(sessions@).subrange(0, i + 1).last() == sessions@[i as int]@);
            self.sync_session(&sessions[i], now);
            i = i + 1;
        }
        assert(sv(sessions@).subrange(0, i as int) =~= sv(sessions@));
        self.apply_pending_engine_peers(now);
        self.promote_all_recycling(now);
        proof {
            use_type_invariant(&*self);
        }
        self.sessions = sessions;
    }


    fn acquire_index_exec(&self, exclude: u64, now: u64, idle_only: bool) -> (r: Option<usize>)
        ensures
            match r {
                Some(i) => i < self@.entries.len() && first_acquirable(
                    self@.entries,
                    exclude,
                    now,
                    idle_only,
                ) == i,
                None => first_acquirable(self@.entries, exclude, now, idle_only) == -1,
            },
    {
        let ghost s = self@.entries;
        let mut i: usize = 0;
        while i < self.entries.len()
            invariant
                i <= self.entries@.len(),
                s == ev(self.entries@),
                forall|k: int| 0 <= k < i ==> !acquirable(#[trigger] s[k], exclude, now, idle_only),
            decreases self.entries@.len() - i,
        {
            let e = &self.entries[i];
            assert(s[i as int] == e@);
            if e.blaze_session_id != exclude && is_assignable(e, now) && (!idle_only || e.state
                == DedicatedPoolState::Idle) {
                proof {
                    lemma_first_acquirable(s, exclude, now, idle_only, i as int);
                }
                return Some(i);
            }
            i = i + 1;
        }
        proof {
            lemma_first_acquirable(s, exclude, now, idle_only, i as int);
        }
        None
    }

    /// An assignable dedicated other than `exclude_session_id`: idle ones first,
    /// lowest session id first. The wanted map does not change the choice.
    pub fn acquire_idle_creator_for_map(
        &self,
        exclude_session_id: u64,
        wanted_map: Option<&str>,
        now: u64,
    ) -> (r: Option<DedicatedServerEntry>)
        ensures
            opt_entry_view(r) == if acquire_index(self@.entries, exclude_session_id, now) >= 0 {
                Some(self@.entries[acquire_index(self@.entries, exclude_session_id, now)])
            } else {
                None::<EntryView>
            },
    {
        let i = match self.acquire_index_exec(exclude_session_id, now, true) {
            Some(i) => i,
            None => match self.acquire_index_exec(exclude_session_id, now, false) {
                Some(i) => i,
                None => return None,
            },
        };
        Some(clone_entry(&self.entries[i]))
    }

    pub fn acquire_idle_creator(&self, exclude_session_id: u64, now: u64) -> (r: Option<DedicatedServerEntry>)
        ensures
            opt_entry_view(r) == if acquire_index(self@.entries, exclude_session_id, now) >= 0 {
                Some(self@.entries[acquire_index(self@.entries, exclude_session_id, now)])
            } else {
                None::<EntryView>
            },
    {
        self.acquire_idle_creator_for_map(exclude_session_id, None, now)
    }

    fn standby_index_exec(&self, gid: i64) -> (r: Option<usize>)
        ensures
            match r {
                Some(i) => i < self@.entries.len() && standby_index(self@.entries, gid) == i,
                None => standby_index(self@.entries, gid) == -1,
            },
    {
        let ghost s = self@.entries;
        let mut i: usize = 0;
        while i < self.entries.len()
            invariant
                i <= self.entries@.len(),
                s == ev(self.entries@),
                forall|k: int|
                    0 <= k < i ==> !((#[trigger] s[k]).creator_registered && s[k].current_gid
                        == Some(gid)),
            decreases self.entries@.len() - i,
        {
            let e = &self.entries[i];
            assert(s[i as int] == e@);
            if e.creator_registered && e.current_gid == Some(gid) {
                proof {
                    lemma_standby_index(s, gid, i as int);
                }
                return Some(i);
            }
            i = i + 1;
        }
        proof {
            lemma_standby_index(s, gid, i as int);
        }
        None
    }

    /// The registered dedicated that holds `gid`.
    pub fn dedicated_for_standby_gid(&self, gid: i64) -> (r: Option<DedicatedServerEntry>)
        ensures
            opt_entry_view(r) == if standby_index(self@.entries, gid) >= 0 {
                Some(self@.entries[standby_index(self@.entries, gid)])
            } else {
                None::<EntryView>
            },
    {
        match self.standby_index_exec(gid) {
            Some(i) => Some(clone_entry(&self.entries[i])),
            None => None,
        }
    }

    /// A registered pool row's browser gid (10000 and up), if any.
    pub fn registered_pool_gid(&self) -> (r: Option<i64>)
        ensures
            r == registered_gid(self@.entries),
    {
        let ghost s = self@.entries;
        let mut i: usize = 0;
        assert(s.subrange(0, s.len() as int) =~= s);
        while i < self.entries.len()
            invariant
                i <= self.entries@.len(),
                s == ev(self.entries@),
                registered_gid(s) == registered_gid(s.subrange(i as int, s.len() as int)),
            decreases self.entries@.len() - i,
        {
            let e = &self.entries[i];
            let ghost t = s.subrange(i as int, s.len() as int);
            assert(t[0] == e@);
            assert(t.drop_first() =~= s.subrange(i + 1, s.len() as int));
            match e.current_gid {
                Some(g) => if e.creator_registered && g > 0 && g >= 10_000 {
                    return Some(g);
                },
                None => {},
            }
            i = i + 1;
        }
        None
    }

    /// The client session that owns the assignment of `gid`.
    pub fn client_session_for_gid(&self, gid: i64) -> (r: Option<u64>)
        ensures
            r == match assignment_of(self@.assignments, gid) {
                Some(a) => Some(a.client_session_id),
                None => None::<u64>,
            },
    {
        match self.find_assignment(gid) {
            Some(i) => Some(self.assignments[i].client_session_id),
            None => None,
        }
    }

    /// The dedicated that the assignment of `gid` names.
    pub fn assigned_dedicated_for_gid(&self, gid: i64) -> (r: Option<u64>)
        ensures
            r == match assignment_of(self@.assignments, gid) {
                Some(a) => Some(a.dedicated_session_id),
                None => None::<u64>,
            },
    {
        match self.find_assignment(gid) {
            Some(i) => Some(self.assignments[i].dedicated_session_id),
            None => None,
        }
    }

    /// The gid whose assignment the dedicated `dedicated_session_id` serves.
    pub fn gid_for_dedicated_session(&self, dedicated_session_id: u64) -> (r: Option<i64>)
        ensures
            r == if assignment_by_dedicated(self@.assignments, dedicated_session_id) >= 0 {
                Some(self@.assignments[assignment_by_dedicated(self@.assignments, dedicated_session_id)].gid)
            } else {
                None::<i64>
            },
    {
        let mut i: usize = 0;
        while i < self.assignments.len()
            invariant
                i <= self.assignments@.len(),
                forall|k: int|
                    0 <= k < i ==> (#[trigger] self@.assignments[k]).dedicated_session_id
                        != dedicated_session_id,
            decreases self.assignments@.len() - i,
        {
            if self.assignments[i].dedicated_session_id == dedicated_session_id {
                proof {
                    lemma_assignment_by_dedicated(self@.assignments, dedicated_session_id, i as int);
                }
                return Some(self.assignments[i].gid);
            }
            i = i + 1;
        }
        proof {
            lemma_assignment_by_dedicated(self@.assignments, dedicated_session_id, i as int);
        }
        None
    }

    /// The dedicated bound to `gid`; `game_dedicated` is what the game registry
    /// records as the gid's dedicated.
    pub fn bound_dedicated_for_gid(&self, gid: i64, game_dedicated: Option<u64>) -> (r: Option<u64>)
        ensures
            r == bound_dedicated(self@, gid, game_dedicated),
    {
        match self.find_assignment(gid) {
            Some(i) => return Some(self.assignments[i].dedicated_session_id),
            None => {},
        }
        match self.standby_index_exec(gid) {
            Some(i) => Some(self.entries[i].blaze_session_id),
            None => game_dedicated,
        }
    }

    /// The dedicated that `gid` would use: its assignment, its registered
    /// holder, else the first assignable dedicated.
    pub fn peek_dedicated_for_gid(&self, gid: i64, now: u64) -> (r: Option<u64>)
        ensures
            r == match assignment_of(self@.assignments, gid) {
                Some(a) => Some(a.dedicated_session_id),
                None => if standby_index(self@.entries, gid) >= 0 {
                    Some(self@.entries[standby_index(self@.entries, gid)].blaze_session_id)
                } else if acquire_index(self@.entries, 0, now) >= 0 {
                    Some(self@.entries[acquire_index(self@.entries, 0, now)].blaze_session_id)
                } else {
                    None::<u64>
                },
            },
    {
        match self.find_assignment(gid) {
            Some(i) => return Some(self.assignments[i].dedicated_session_id),
            None => {},
        }
        match self.standby_index_exec(gid) {
            Some(i) => return Some(self.entries[i].blaze_session_id),
            None => {},
        }
        match self.acquire_idle_creator(0, now) {
            Some(e) => Some(e.blaze_session_id),
            None => None,
        }
    }

    fn remove_assignment(&mut self, gid: i64) -> (r: Option<GameAssignment>)
        ensures
            r == assignment_of(old(self)@.assignments, gid),
            final(self)@ == (PoolView {
                assignments: drop_assignment(old(self)@.assignments, gid),
                ..old(self)@
            }),
    {
        proof {
            use_type_invariant(&*self);
        }
        match self.find_assignment(gid) {
            Some(i) => {
                let ghost before = self.assignments@;
                let mut v: Vec<GameAssignment> = Vec::new();
                std::mem::swap(&mut v, &mut self.assignments);
                let a = v.remove(i);
                assert(unique_gids(v@)) by {
                    assert forall|x: int, y: int| 0 <= x < y < v@.len() implies #[trigger] v@[x].gid
                        != #[trigger] v@[y].gid by {
                        let xx = if x < i { x } else { x + 1 };
                        let yy = if y < i { y } else { y + 1 };
                        assert(before[xx].gid != before[yy].gid);
                    }
                }
                self.assignments = v;
                Some(a)
            },
            None => None,
        }
    }

    /// Ends the assignment of `gid`; its dedicated goes idle without a match.
    pub fn release_gid(&mut self, gid: i64, now: u64)
        ensures
            final(self)@ == released_pool(old(self)@, gid, now),
    {
        match self.remove_assignment(gid) {
            Some(a) => match self.find_entry(a.dedicated_session_id) {
                Some(i) => {
                    let mut e = clone_entry(&self.entries[i]);
                    e.state = DedicatedPoolState::Idle;
                    e.current_gid = None;
                    e.game_name = None;
                    e.current_map = None;
                    e.last_event_unix_secs = now;
                    self.set_entry(i, e);
                },
                None => {},
            },
            None => {},
        }
    }

    /// Takes the match of `gid` back from its dedicated, which starts recycling
    /// (keeping its gid and remembering its map). The dedicated, if any.
    pub fn reclaim_gid_to_idle_pool(&mut self, gid: i64, game_dedicated: Option<u64>, now: u64) -> (r: Option<u64>)
        ensures
            r == bound_dedicated(old(self)@, gid, game_dedicated),
            final(self)@ == reclaimed_pool(old(self)@, gid, game_dedicated, now),
    {
        let dsid = self.bound_dedicated_for_gid(gid, game_dedicated);
        let _ = self.remove_assignment(gid);
        match dsid {
            Some(sid) => {
                match self.find_entry(sid) {
                    Some(i) => {
                        let mut e = clone_entry(&self.entries[i]);
                        let keep_gid = match e.current_gid {
                            Some(g) => g,
                            None => gid,
                        };
                        if e.current_map.is_some() {
                            e.previous_map = clone_opt_string(&e.current_map);
                        }
                        e.state = DedicatedPoolState::Recycling;
                        e.game_name = None;
                        e.current_gid = Some(keep_gid);
                        e.current_map = None;
                        e.last_event_unix_secs = now;
                        self.set_entry(i, e);
                    },
                    None => {},
                }
                Some(sid)
            },
            None => None,
        }
    }

    fn reclaim_notify_recent_for_session(&self, blaze_session_id: u64, now: u64) -> (b: bool)
        ensures
            b == match entry_of(self@.entries, blaze_session_id) {
                Some(e) => match e.unload_requested_at {
                    Some(t) => e.state == DedicatedPoolState::Recycling && sat_sub(now, t)
                        < RECLAIM_NOTIFY_COALESCE_SECS,
                    None => false,
                },
                None => false,
            },
    {
        match self.find_entry(blaze_session_id) {
            Some(i) => {
                let e = &self.entries[i];
                match e.unload_requested_at {
                    Some(t) => e.state == DedicatedPoolState::Recycling && now.saturating_sub(t)
                        < RECLAIM_NOTIFY_COALESCE_SECS,
                    None => false,
                }
            },
            None => false,
        }
    }

    /// Whether the dedicated of `gid` was sent its reclaim notifications within
    /// the coalescing window.
    pub fn reclaim_notify_recent_for_gid(&self, gid: i64, game_dedicated: Option<u64>, now: u64) -> (b: bool)
        ensures
            b == reclaim_recent(self@, gid, game_dedicated, now),
    {
        match self.bound_dedicated_for_gid(gid, game_dedicated) {
            Some(sid) => self.reclaim_notify_recent_for_session(sid, now),
            None => false,
        }
    }


    fn find_identity(&self, sid: u64) -> (r: Option<usize>)
        ensures
            match r {
                Some(i) => i < self@.identities.len() && identity_index(self@.identities, sid) == i,
                None => identity_index(self@.identities, sid) == -1,
            },
    {
        proof {
            use_type_invariant(self);
        }
        let ghost s = self@.identities;
        let mut i: usize = 0;
        while i < self.identities.len()
            invariant
                i <= self.identities@.len(),
                s == iv(self.identities@),
                unique_identities(s),
                forall|k: int| 0 <= k < i ==> s[k].session_id != sid,
            decreases self.identities@.len() - i,
        {
            assert(s[i as int] == self.identities@[i as int]@);
            if self.identities[i].session_id == sid {
                proof {
                    lemma_identity_index(s, sid, i as int);
                }
                return Some(i);
            }
            i = i + 1;
        }
        None
    }

    fn number_in_use(&self, n: u64) -> (b: bool)
        ensures
            b == number_used(self@.identities, n as int),
    {
        let ghost s = self@.identities;
        let mut i: usize = 0;
        while i < self.identities.len()
            invariant
                i <= self.identities@.len(),
                s == iv(self.identities@),
                forall|k: int| 0 <= k < i ==> s[k].number != n,
            decreases self.identities@.len() - i,
        {
            assert(s[i as int] == self.identities@[i as int]@);
            if self.identities[i].number as u64 == n {
                return true;
            }
            i = i + 1;
        }
        false
    }

    /// The name and persona of session `session_id`'s identity; a new identity
    /// (`CNCO{n}` with the least free number, and a random synthetic persona)
    /// when it has none.
    pub fn allocate_dedicated_identity(&mut self, session_id: u64) -> (r: (String, u64))
        requires
            old(self)@.identities.len() < 0xFFFF_FFFF,
        ensures
            match identity_of(old(self)@.identities, session_id) {
                Some(x) => r.0@ == x.name && r.1 == x.persona_id && final(self)@ == old(self)@,
                None => exists|n: u32|
                    #![trigger dec(n as nat)]
                    least_free_number(old(self)@.identities, n as int) && r.0@ == "CNCO"@ + dec(
                        n as nat,
                    ) && in_persona_range(r.1) && final(self)@ == (PoolView {
                        identities: old(self)@.identities.push(
                            IdentityView {
                                session_id,
                                number: n,
                                name: r.0@,
                                persona_id: r.1,
                            },
                        ),
                        ..old(self)@
                    }),
            },
    {
        proof {
            use_type_invariant(&*self);
        }
        match self.find_identity(session_id) {
            Some(i) => {
                assert(self@.identities[i as int] == self.identities@[i as int]@);
                return (self.identities[i].name.clone(), self.identities[i].persona_id);
            },
            None => {},
        }
        let len = self.identities.len() as u64;
        let mut number: u64 = 1;
        while self.number_in_use(number)
            invariant
                1 <= number <= len + 1,
                len == self@.identities.len(),
                forall|m: int| 1 <= m < number ==> number_used(self@.identities, m),
            decreases len + 1 - number,
        {
            proof {
                lemma_numbers_pigeonhole(self@.identities, number as int);
            }
            number = number + 1;
        }
        let n: u32 = number as u32;
        let persona = (DEDICATED_SYNTHETIC_PERSONA_BASE as u64) + random_below(9_999_999_999);
        let mut name: Vec<char> = Vec::new();
        push_str(&mut name, "CNCO");
        push_dec(&mut name, number);
        let name_s = chars_to_string(&name);
        let ident = DedicatedIdentity {
            session_id,
            number: n,
            name: name_s.clone(),
            persona_id: persona,
        };
        let ghost before = self@.identities;
        let mut v: Vec<DedicatedIdentity> = Vec::new();
        std::mem::swap(&mut v, &mut self.identities);
        v.push(ident);
        assert(iv(v@) =~= before.push(
            IdentityView { session_id, number: n, name: name_s@, persona_id: persona },
        ));
        assert(unique_identities(iv(v@))) by {
            assert forall|a: int, b: int| 0 <= a < b < iv(v@).len() implies #[trigger] iv(
                v@,
            )[a].session_id != #[trigger] iv(v@)[b].session_id by {
                if b < before.len() {
                    assert(before[a].session_id != before[b].session_id);
                } else {
                    assert(identity_index(before, session_id) == -1);
                    assert(before[a].session_id != session_id);
                }
            }
        }
        self.identities = v;
        assert(least_free_number(before, n as int));
        (name_s, persona)
    }

    /// The persona and name given to session `session_id`.
    pub fn dedicated_identity_for_session(&self, session_id: u64) -> (r: Option<(u64, String)>)
        ensures
            match r {
                Some(x) => identity_of(self@.identities, session_id) matches Some(y) && x.0
                    == y.persona_id && x.1@ == y.name,
                None => identity_of(self@.identities, session_id) is None,
            },
    {
        match self.find_identity(session_id) {
            Some(i) => {
                assert(self@.identities[i as int] == self.identities@[i as int]@);
                Some((self.identities[i].persona_id, self.identities[i].name.clone()))
            },
            None => None,
        }
    }


    /// A new `CLNT` value for a session: a non-server one drops its pool entry,
    /// a server one triggers a sync with the registry.
    pub fn on_clnt_updated(&mut self, blaze_session_id: u64, clnt: &str, sessions: Vec<BlazeSessionInfo>, now: u64)
        ensures
            final(self)@ == if clnt_qualifies(clnt@) {
                sync_spec(old(self)@, sv(sessions@), now)
            } else {
                PoolView { entries: drop_entry(old(self)@.entries, blaze_session_id), ..old(self)@ }
            },
    {
        if !clnt_qualifies_for_pool(clnt) {
            match self.find_entry(blaze_session_id) {
                Some(i) => self.remove_entry_at(i),
                None => {},
            }
            return;
        }
        self.sync_from_blaze_sessions(sessions, now);
    }

    /// Registers a dedicated creator: it gets an identity, its standby gid and
    /// `hostname` as its browser name, and becomes idle. `None` when it was
    /// already registered with a gid; otherwise its name, persona and gid.
    pub fn on_register_creator(&mut self, blaze_session_id: u64, hostname: &str, now: u64) -> (r: Option<(String, u64, i64)>)
        requires
            old(self)@.identities.len() < 0xFFFF_FFFF,
        ensures
            ({
                let q = ensure_spec(old(self)@, blaze_session_id, now);
                match entry_of(q.entries, blaze_session_id) {
                    Some(e) => if e.creator_registered && e.current_gid is Some {
                        r is None && final(self)@ == q
                    } else {
                        r matches Some(x) && x.2 == standby_gid(blaze_session_id) && (match identity_of(q.identities, blaze_session_id) {
                            Some(y) => x.0@ == y.name && x.1 == y.persona_id,
                            None => in_persona_range(x.1),
                        }) && final(self)@.entries == apply_pending(
                            q.entries.update(
                                entry_index(q.entries, blaze_session_id),
                                EntryView {
                                    creator_registered: true,
                                    state: DedicatedPoolState::Idle,
                                    persona_id: Some(x.1),
                                    display_name: Some(x.0@),
                                    server_hostname: Some(hostname@),
                                    current_gid: Some(x.2),
                                    last_event_unix_secs: now,
                                    ..e
                                },
                            ),
                            q.pending,
                            now,
                        ).0
                    },
                    None => r is None && final(self)@ == q,
                }
            }),
    {
        self.ensure_pool_entry(blaze_session_id, now);
        let i = match self.find_entry(blaze_session_id) {
            Some(i) => i,
            None => return None,
        };
        if self.entries[i].creator_registered && self.entries[i].current_gid.is_some() {
            return None;
        }
        let (name, persona) = self.allocate_dedicated_identity(blaze_session_id);
        let gid = standby_gid_for_session(blaze_session_id);
        let mut e = clone_entry(&self.entries[i]);
        e.creator_registered = true;
        e.state = DedicatedPoolState::Idle;
        e.persona_id = Some(persona);
        e.display_name = Some(name.clone());
        e.server_hostname = Some(chars_to_string(&str_chars(hostname)));
        e.current_gid = Some(gid);
        e.last_event_unix_secs = now;
        self.set_entry(i, e);
        self.apply_pending_engine_peers(now);
        Some((name, persona, gid))
    }

    /// Unregisters a creator: back to connected, without a gid.
    pub fn on_unregister_creator(&mut self, blaze_session_id: u64, now: u64)
        ensures
            final(self)@ == match entry_of(old(self)@.entries, blaze_session_id) {
                Some(e) => update_entry(
                    old(self)@,
                    blaze_session_id,
                    EntryView {
                        creator_registered: false,
                        state: DedicatedPoolState::Connected,
                        current_gid: None,
                        last_event_unix_secs: now,
                        ..e
                    },
                ),
                None => old(self)@,
            },
    {
        match self.find_entry(blaze_session_id) {
            Some(i) => {
                let mut e = clone_entry(&self.entries[i]);
                e.creator_registered = false;
                e.state = DedicatedPoolState::Connected;
                e.current_gid = None;
                e.last_event_unix_secs = now;
                self.set_entry(i, e);
            },
            None => {},
        }
    }

    /// The dedicated returned itself to the pool (its gid, when the request
    /// carried one): idle and assignable at once.
    pub fn on_return_to_pool(&mut self, blaze_session_id: u64, gid: Option<i64>, now: u64)
        ensures
            final(self)@ == returned_pool(old(self)@, blaze_session_id, gid, now),
    {
        match self.find_entry(blaze_session_id) {
            Some(i) => {
                let mut e = clone_entry(&self.entries[i]);
                e.state = DedicatedPoolState::Idle;
                e.unload_requested_at = None;
                e.current_map = None;
                e.game_name = None;
                e.last_event_unix_secs = now;
                if gid.is_some() {
                    e.current_gid = gid;
                }
                self.set_entry(i, e);
            },
            None => {},
        }
    }

    /// The dedicated runs match `gid`.
    pub fn on_game_active(&mut self, blaze_session_id: u64, gid: i64, game_name: Option<String>, now: u64)
        ensures
            final(self)@ == game_active_pool(old(self)@, blaze_session_id, gid, opt_str(game_name), now),
    {
        match self.find_entry(blaze_session_id) {
            Some(i) => {
                let mut e = clone_entry(&self.entries[i]);
                e.state = DedicatedPoolState::InUse;
                e.current_gid = Some(gid);
                e.game_name = game_name;
                e.last_event_unix_secs = now;
                self.set_entry(i, e);
            },
            None => {},
        }
    }

    /// The session disconnected: its entry, assignments and identity go. The
    /// gid it held (its standby gid when none), if it had an entry.
    pub fn on_session_gone(&mut self, blaze_session_id: u64) -> (r: Option<i64>)
        ensures
            r == match entry_of(old(self)@.entries, blaze_session_id) {
                Some(e) => Some(
                    match e.current_gid {
                        Some(g) => g,
                        None => standby_gid(blaze_session_id),
                    },
                ),
                None => None::<i64>,
            },
            final(self)@ == (PoolView {
                entries: drop_entry(old(self)@.entries, blaze_session_id),
                assignments: drop_dedicated_assignments(old(self)@.assignments, blaze_session_id),
                identities: drop_identity(old(self)@.identities, blaze_session_id),
                ..old(self)@
            }),
    {
        proof {
            use_type_invariant(&*self);
        }
        let owned = match self.find_entry(blaze_session_id) {
            Some(i) => {
                let g = match self.entries[i].current_gid {
                    Some(g) => g,
                    None => standby_gid_for_session(blaze_session_id),
                };
                self.remove_entry_at(i);
                Some(g)
            },
            None => None,
        };
        let ghost a0 = self.assignments@;
        let mut v: Vec<GameAssignment> = Vec::new();
        std::mem::swap(&mut v, &mut self.assignments);
        let mut kept: Vec<GameAssignment> = Vec::new();
        let mut i: usize = 0;
        while i < v.len()
            invariant
                i <= v@.len(),
                a0 == v@,
                unique_gids(a0),
                kept@ == drop_dedicated_assignments(a0.subrange(0, i as int), blaze_session_id),
                forall|x: int| 0 <= x < kept@.len() ==> exists|y: int| 0 <= y < i && #[trigger] kept@[x] == a0[y],
                unique_gids(kept@),
            decreases v@.len() - i,
        {
            assert(a0.subrange(0, i + 1).drop_last() =~= a0.subrange(0, i as int));
            if v[i].dedicated_session_id != blaze_session_id {
                let ghost before = kept@;
                kept.push(v[i]);
                assert forall|x: int, y: int| 0 <= x < y < kept@.len() implies #[trigger] kept@[x].gid
                    != #[trigger] kept@[y].gid by {
                    if y < before.len() {
                        assert(before[x].gid != before[y].gid);
                    } else {
                        let z = choose|z: int| 0 <= z < i && before[x] == a0[z];
                        assert(a0[z].gid != a0[i as int].gid);
                    }
                }
                assert forall|x: int| 0 <= x < kept@.len() implies exists|y: int| 0 <= y < i + 1 && #[trigger] kept@[x] == a0[y] by {
                    if x < before.len() {
                        let z = choose|z: int| 0 <= z < i && before[x] == a0[z];
                        assert(kept@[x] == a0[z]);
                    } else {
                        assert(kept@[x] == a0[i as int]);
                    }
                }
            }
            i = i + 1;
        }
        assert(a0.subrange(0, i as int) =~= a0);
        self.assignments = kept;
        match self.find_identity(blaze_session_id) {
            Some(k) => {
                let ghost before = self@.identities;
                let mut ids: Vec<DedicatedIdentity> = Vec::new();
                std::mem::swap(&mut ids, &mut self.identities);
                ids.remove(k);
                assert(iv(ids@) =~= before.remove(k as int));
                assert(unique_identities(iv(ids@))) by {
                    let t = iv(ids@);
                    assert forall|x: int, y: int| 0 <= x < y < t.len() implies #[trigger] t[x].session_id
                        != #[trigger] t[y].session_id by {
                        let xx = if x < k { x } else { x + 1 };
                        let yy = if y < k { y } else { y + 1 };
                        assert(before[xx].session_id != before[yy].session_id);
                    }
                }
                self.identities = ids;
            },
            None => {},
        }
        owned
    }

    /// Asks dedicated `blaze_session_id` to unload its level at `now`: the gid
    /// that reclaim notifications go to, or `None` when there is none or one was
    /// sent within the coalescing window (nothing changes then).
    pub fn request_dedicated_level_unload(&mut self, blaze_session_id: u64, gid: i64, now: u64) -> (r: Option<i64>)
        ensures
            r == unload_target(old(self)@, blaze_session_id, gid, now),
            final(self)@ == unloaded_pool(old(self)@, blaze_session_id, gid, now),
    {
        let g = match self.gid_for_dedicated_session(blaze_session_id) {
            Some(x) if x > 0 => Some(x),
            _ => if gid > 0 {
                Some(gid)
            } else {
                match self.find_entry(blaze_session_id) {
                    Some(i) => match self.entries[i].current_gid {
                        Some(x) => if x > 0 {
                            Some(x)
                        } else {
                            None
                        },
                        None => None,
                    },
                    None => None,
                }
            },
        };
        if g.is_none() {
            return None;
        }
        if self.reclaim_notify_recent_for_session(blaze_session_id, now) {
            return None;
        }
        match self.find_entry(blaze_session_id) {
            Some(i) => {
                let mut e = clone_entry(&self.entries[i]);
                if e.current_map.is_some() {
                    e.previous_map = clone_opt_string(&e.current_map);
                }
                e.unload_requested_at = Some(now);
                e.state = DedicatedPoolState::Recycling;
                self.set_entry(i, e);
            },
            None => {},
        }
        g
    }

    /// Extra CreateGame delay when a recycled dedicated is about to switch maps.
    pub fn recycle_create_game_extra_delay_ms(&self, dedicated_session_id: u64, wanted_map: &str) -> (d: u64)
        ensures
            d == match entry_of(self@.entries, dedicated_session_id) {
                Some(e) => match e.previous_map {
                    Some(prev) => if prev.len() == 0 || prev == wanted_map@ {
                        0
                    } else {
                        RECYCLE_MAP_SWITCH_CREATE_GAME_EXTRA_MS
                    },
                    None => 0,
                },
                None => 0,
            },
    {
        match self.find_entry(dedicated_session_id) {
            Some(i) => match &self.entries[i].previous_map {
                Some(prev) => {
                    let p = str_chars(prev.as_str());
                    let w = str_chars(wanted_map);
                    if p.len() == 0 || crate::text::chars_eq(&p, &w) {
                        0
                    } else {
                        RECYCLE_MAP_SWITCH_CREATE_GAME_EXTRA_MS
                    }
                },
                None => 0,
            },
            None => 0,
        }
    }

    /// How a client reaches dedicated `blaze_session_id` after pending EnginePeer
    /// reports are offered; `peer_ipv4` is its peer's IPv4 as a CNC integer (0
    /// when the peer is not IPv4).
    pub fn host_context_for(&mut self, blaze_session_id: u64, client_persona: u64, peer_ipv4: i32, now: u64) -> (r: Option<DedicatedHostContext>)
        requires
            blaze_session_id <= u64::MAX - 900_000_000_000,
        ensures
            ({
                let q = with_pool_entries(old(self)@, apply_pending(old(self)@.entries, old(self)@.pending, now));
                &&& final(self)@ == q
                &&& r == match entry_of(q.entries, blaze_session_id) {
                    Some(e) => Some(host_context(e, client_persona, peer_ipv4)),
                    None => None::<DedicatedHostContext>,
                }
            }),
    {
        self.apply_pending_engine_peers(now);
        let i = match self.find_entry(blaze_session_id) {
            Some(i) => i,
            None => return None,
        };
        assert(self@.entries[i as int] == self.entries@[i as int]@);
        Some(host_context_from_entry(&self.entries[i], client_persona, peer_ipv4))
    }

    /// The dedicated a client reset of `gid` goes to: the registered holder of
    /// the gid, else an assignable one other than the client's own session.
    pub fn reset_dedicated_choice(&self, client_session_id: u64, gid: i64, now: u64) -> (r: Option<u64>)
        ensures
            r == if standby_index(self@.entries, gid) >= 0 {
                Some(self@.entries[standby_index(self@.entries, gid)].blaze_session_id)
            } else if acquire_index(self@.entries, client_session_id, now) >= 0 {
                Some(self@.entries[acquire_index(self@.entries, client_session_id, now)].blaze_session_id)
            } else {
                None::<u64>
            },
    {
        match self.standby_index_exec(gid) {
            Some(i) => return Some(self.entries[i].blaze_session_id),
            None => {},
        }
        match self.acquire_idle_creator_for_map(client_session_id, None, now) {
            Some(e) => Some(e.blaze_session_id),
            None => None,
        }
    }

    /// Drops an assignment of `gid` left without orchestration; its dedicated
    /// goes idle. The dedicated it named, if any.
    pub fn drop_stale_assignment(&mut self, gid: i64, now: u64) -> (r: Option<u64>)
        ensures
            r == match assignment_of(old(self)@.assignments, gid) {
                Some(a) => Some(a.dedicated_session_id),
                None => None::<u64>,
            },
            final(self)@ == stale_dropped(old(self)@, gid, now),
    {
        match self.remove_assignment(gid) {
            Some(a) => {
                match self.find_entry(a.dedicated_session_id) {
                    Some(i) => {
                        let mut e = clone_entry(&self.entries[i]);
                        e.state = DedicatedPoolState::Idle;
                        e.last_event_unix_secs = now;
                        self.set_entry(i, e);
                    },
                    None => {},
                }
                Some(a.dedicated_session_id)
            },
            None => None,
        }
    }

    /// Binds match `gid` of client `client_session_id` to dedicated
    /// `dedicated_session_id` (reached through `host`) for `wanted_map`: the
    /// dedicated is in use for that gid and map, and the assignment replaces any
    /// earlier one for the gid.
    pub fn assign_dedicated_for_reset(
        &mut self,
        client_session_id: u64,
        gid: i64,
        dedicated_session_id: u64,
        host: DedicatedHostContext,
        wanted_map: Option<String>,
        now: u64,
    )
        ensures
            final(self)@ == reset_assigned(
                old(self)@,
                client_session_id,
                gid,
                dedicated_session_id,
                host,
                opt_str(wanted_map),
                now,
            ),
    {
        match self.find_entry(dedicated_session_id) {
            Some(i) => {
                let mut e = clone_entry(&self.entries[i]);
                e.state = DedicatedPoolState::InUse;
                e.current_gid = Some(gid);
                e.current_map = wanted_map;
                e.unload_requested_at = None;
                e.last_event_unix_secs = now;
                self.set_entry(i, e);
            },
            None => {},
        }
        proof {
            use_type_invariant(&*self);
            lemma_drop_assignment(self@.assignments, gid);
        }
        let _ = self.remove_assignment(gid);
        proof {
            use_type_invariant(&*self);
        }
        let ghost before = self.assignments@;
        let mut v: Vec<GameAssignment> = Vec::new();
        std::mem::swap(&mut v, &mut self.assignments);
        let a = GameAssignment {
            gid,
            client_session_id,
            dedicated_session_id,
            host,
            assigned_at_unix: now,
        };
        v.push(a);
        assert(unique_gids(v@)) by {
            assert forall|x: int, y: int| 0 <= x < y < v@.len() implies #[trigger] v@[x].gid
                != #[trigger] v@[y].gid by {
                if y < before.len() {
                    assert(before[x].gid != before[y].gid);
                } else {
                    assert(before[x].gid != gid);
                }
            }
        }
        self.assignments = v;
    }

    /// How a client reaches the dedicated of `gid`: by its assignment (the
    /// snapshot taken then when the entry is gone), else through the first
    /// assignable dedicated; `peer_ipv4` is that dedicated's peer IPv4.
    pub fn host_for_gid(&mut self, gid: i64, client_persona: u64, peer_ipv4: i32, now: u64) -> (r: Option<DedicatedHostContext>)
        requires
            forall|i: int|
                0 <= i < old(self)@.entries.len() ==> (#[trigger] old(self)@.entries[i]).blaze_session_id
                    <= u64::MAX - 900_000_000_000,
        ensures
            ({
                let q = with_pool_entries(old(self)@, apply_pending(old(self)@.entries, old(self)@.pending, now));
                match assignment_of(old(self)@.assignments, gid) {
                    Some(a) => match entry_of(old(self)@.entries, a.dedicated_session_id) {
                        Some(e) => final(self)@ == q && r == match entry_of(q.entries, a.dedicated_session_id) {
                            Some(e2) => Some(host_context(e2, client_persona, peer_ipv4)),
                            None => None::<DedicatedHostContext>,
                        },
                        None => final(self)@ == old(self)@ && r == Some(a.host),
                    },
                    None => if acquire_index(old(self)@.entries, 0, now) >= 0 {
                        let sid = old(self)@.entries[acquire_index(old(self)@.entries, 0, now)].blaze_session_id;
                        final(self)@ == q && r == match entry_of(q.entries, sid) {
                            Some(e2) => Some(host_context(e2, client_persona, peer_ipv4)),
                            None => None::<DedicatedHostContext>,
                        }
                    } else {
                        final(self)@ == old(self)@ && r is None
                    },
                }
            }),
    {
        match self.find_assignment(gid) {
            Some(i) => {
                let a = self.assignments[i];
                match self.find_entry(a.dedicated_session_id) {
                    Some(j) => {
                        assert(self@.entries[j as int].blaze_session_id == a.dedicated_session_id);
                        return self.host_context_for(a.dedicated_session_id, client_persona, peer_ipv4, now);
                    },
                    None => return Some(a.host),
                }
            },
            None => {},
        }
        match self.acquire_idle_creator(0, now) {
            Some(e) => {
                proof {
                    lemma_acquire_bound(self@.entries, 0, now);
                    let k = acquire_index(self@.entries, 0, now);
                    assert(self@.entries[k].blaze_session_id <= u64::MAX - 900_000_000_000);
                }
                self.host_context_for(e.blaze_session_id, client_persona, peer_ipv4, now)
            },
            None => None,
        }
    }

}

/// How a client reaches dedicated entry `e`: its persona (a synthetic one when
/// it has none or shares the client's `client_persona`), its reported addresses
/// with `peer_ipv4` (its peer's IPv4 as a CNC integer) in their place, and its
/// game UDP port.
pub fn host_context_from_entry(e: &DedicatedServerEntry, client_persona: u64, peer_ipv4: i32) -> (h: DedicatedHostContext)
    requires
        e.blaze_session_id <= u64::MAX - 900_000_000_000,
    ensures
        h == host_context(e@, client_persona, peer_ipv4),
{
    let persona: i64 = match e.persona_id {
        Some(p) => if p != 0 && p != client_persona {
            p as i64
        } else {
            (900_000_000_000 + e.blaze_session_id) as i64
        },
        None => (900_000_000_000 + e.blaze_session_id) as i64,
    };
    let inip: i32 = match e.network_inip_ip {
        Some(ip) => if ip != 0 {
            ip
        } else {
            peer_ipv4
        },
        None => peer_ipv4,
    };
    let exip: i32 = match e.network_exip_ip {
        Some(ip) if ip != 0 => ip,
        _ => match e.network_inip_ip {
            Some(ip2) => if ip2 != 0 {
                ip2
            } else {
                inip
            },
            None => inip,
        },
    };
    let port: i32 = match e.engine_peer_udp_port {
        Some(p) if is_usable_dedicated_game_udp_port(p) => p,
        _ => match e.network_inip_port {
            Some(p) if is_usable_dedicated_game_udp_port(p) => p,
            _ => match e.network_exip_port {
                Some(p) if is_usable_dedicated_game_udp_port(p) => p,
                _ => DEFAULT_DEDICATED_GAME_UDP_PORT,
            },
        },
    };
    DedicatedHostContext {
        blaze_session_id: e.blaze_session_id,
        persona_id: persona,
        inip_ip: inip,
        inip_port: port,
        exip_ip: exip,
        exip_port: port,
    }
}

/// The pool once the assignment of `gid` is dropped, its dedicated (if it
/// has an entry) idle as of `now`.
pub open spec fn stale_dropped(p: PoolView, gid: i64, now: u64) -> PoolView {
    let q = PoolView { assignments: drop_assignment(p.assignments, gid), ..p };
    match assignment_of(p.assignments, gid) {
        Some(a) => match entry_of(q.entries, a.dedicated_session_id) {
            Some(e) => update_entry(
                q,
                a.dedicated_session_id,
                EntryView { state: DedicatedPoolState::Idle, last_event_unix_secs: now, ..e },
            ),
            None => q,
        },
        None => q,
    }
}

/// The pool once match `gid` of client `client_session_id` is bound to
/// dedicated `dedicated_session_id` for `wanted_map`.
pub open spec fn reset_assigned(
    p: PoolView,
    client_session_id: u64,
    gid: i64,
    dedicated_session_id: u64,
    host: DedicatedHostContext,
    wanted_map: Option<Seq<char>>,
    now: u64,
) -> PoolView {
    let a = GameAssignment { gid, client_session_id, dedicated_session_id, host, assigned_at_unix: now };
    let q = match entry_of(p.entries, dedicated_session_id) {
        Some(e) => update_entry(
            p,
            dedicated_session_id,
            EntryView {
                state: DedicatedPoolState::InUse,
                current_gid: Some(gid),
                current_map: wanted_map,
                unload_requested_at: None,
                last_event_unix_secs: now,
                ..e
            },
        ),
        None => p,
    };
    PoolView { assignments: drop_assignment(q.assignments, gid).push(a), ..q }
}

pub open spec fn opt_entry_view(r: Option<DedicatedServerEntry>) -> Option<EntryView> {
    match r {
        Some(e) => Some(e@),
        None => None,
    }
}

} // verus!
