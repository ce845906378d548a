//! A client's reset of a match: which pooled dedicated takes it, and the pool
//! and room state that the assignment leaves.
use vstd::prelude::*;
use crate::cnc::dedicated_pool::{
    acquire_index, assignment_of, clone_session, host_context, host_context_from_entry, identity_of,
    is_dedicated_session, lemma_session_index, opt_str, recycle_cmd220_wait_secs, registered_gid, reset_assigned,
    session_index, session_of, stale_dropped, standby_index, sv,
    sync_spec, wait_secs, BlazeSessionInfo, DedicatedHostContext, DedicatedPool, EntryView, PoolView, SessionView,
};
use crate::cnc::game_state::lobby_attrs::{adopted_pending, map_path_spec};
use crate::cnc::game_state::client_row::{client_joined, opt_player_view};
use crate::cnc::game_state::{orch_of, orchestration_begun, CncPlayer, GameRegistry, RegistryView};
use crate::text::str_chars;

verus! {

broadcast use vstd::string::group_string_axioms;

/// The dedicated a reset was given to.
#[derive(Debug)]
pub struct ResetAssignment {
    pub dedicated_session_id: u64,
    /// The map the match is to load (none when no map was chosen).
    pub wanted_map: Option<String>,
    /// How clients reach the dedicated.
    pub host: DedicatedHostContext,
    /// The persona that hosts the match on the dedicated.
    pub host_persona: i64,
    /// Seconds to hold the match assignment back while the dedicated unloads
    /// its previous level.
    pub recycle_wait_secs: u64,
    /// The client's roster row in the match.
    pub client_player: Option<CncPlayer>,
}

/// What a client reset led to.
#[derive(Debug)]
pub enum ResetOutcome {
    /// The requesting session is itself a dedicated server: nothing to do.
    FromDedicated,
    /// The match is already orchestrated on this dedicated.
    AlreadyOrchestrated(u64),
    /// No dedicated could take the match.
    NoDedicated,
    Assigned(ResetAssignment),
}

pub enum ResetOutcomeView {
    FromDedicated,
    AlreadyOrchestrated(u64),
    NoDedicated,
    Assigned {
        dedicated_session_id: u64,
        wanted_map: Option<Seq<char>>,
        host: DedicatedHostContext,
        host_persona: i64,
        recycle_wait_secs: u64,
    },
}

impl View for ResetOutcome {
    type V = ResetOutcomeView;

    open spec fn view(&self) -> ResetOutcomeView {
        match self {
            ResetOutcome::FromDedicated => ResetOutcomeView::FromDedicated,
            ResetOutcome::AlreadyOrchestrated(s) => ResetOutcomeView::AlreadyOrchestrated(*s),
            ResetOutcome::NoDedicated => ResetOutcomeView::NoDedicated,
            ResetOutcome::Assigned(a) => ResetOutcomeView::Assigned {
                dedicated_session_id: a.dedicated_session_id,
                wanted_map: opt_str(a.wanted_map),
                host: a.host,
                host_persona: a.host_persona,
                recycle_wait_secs: a.recycle_wait_secs,
            },
        }
    }
}

/// The IPv4 (as a CNC integer) of the peer of session `sid` in `ips`: the first
/// entry for it, else 0 (not an IPv4 peer).
pub open spec fn ipv4_of(ips: Seq<(u64, i32)>, sid: u64) -> i32
    decreases ips.len(),
{
    if ips.len() == 0 {
        0
    } else if ips[0].0 == sid {
        ips[0].1
    } else {
        ipv4_of(ips.drop_first(), sid)
    }
}

fn ipv4_of_exec(ips: &Vec<(u64, i32)>, sid: u64) -> (r: i32)
    ensures
        r == ipv4_of(ips@, sid),
{
    let ghost s = ips@;
    let mut i: usize = 0;
    assert(s.subrange(0, s.len() as int) =~= s);
    while i < ips.len()
        invariant
            i <= ips@.len(),
            s == ips@,
            ipv4_of(s, sid) == ipv4_of(s.subrange(i as int, s.len() as int), sid),
        decreases ips@.len() - i,
    {
        assert(s.subrange(i as int, s.len() as int).drop_first() =~= s.subrange(i + 1, s.len() as int));
        if ips[i].0 == sid {
            return ips[i].1;
        }
        i = i + 1;
    }
    0
}

/// The dedicated entry a reset of `gid` goes to, and the pool it is chosen
/// in: the registered holder of the gid after a sync with the sessions, else
/// (after a second sync) an assignable one other than the client's session.
pub open spec fn reset_choice(p: PoolView, ss: Seq<SessionView>, client_session_id: u64, gid: i64, now: u64) -> (
    Option<EntryView>,
    PoolView,
) {
    let p2 = sync_spec(p, ss, now);
    let si = standby_index(p2.entries, gid);
    if si >= 0 {
        (Some(p2.entries[si]), p2)
    } else {
        let p3 = sync_spec(p2, ss, now);
        let ai = acquire_index(p3.entries, client_session_id, now);
        (
            if ai >= 0 {
                Some(p3.entries[ai])
            } else {
                None
            },
            p3,
        )
    }
}

/// The map a reset loads: the gid's own map, else the one adopted from the
/// host's lobby; none when empty.
pub open spec fn reset_map(r: RegistryView, gid: i64, host: i64) -> Option<Seq<char>> {
    let m0 = map_path_spec(r, gid);
    let m = if m0.len() > 0 {
        m0
    } else {
        match adopted_pending(r, gid, host).0 {
            Some(x) => x,
            None => Seq::empty(),
        }
    };
    if m.len() == 0 {
        None
    } else {
        Some(m)
    }
}

/// What a client reset of `gid` gives and leaves (pool `p`, registry `r`,
/// Blaze sessions `ss`; `host` is this side's persona, `client_persona` the
/// signed-in one, `ips` the peers' IPv4s):
/// - a dedicated session asking: nothing;
/// - an assignment that still has its orchestration: that dedicated;
/// - otherwise a stale assignment is dropped, the host lobby's pending map is
///   adopted when the gid has none, and the chosen dedicated (see
///   `reset_choice`) is bound to the gid with a fresh orchestration.
///   A dedicated whose session id leaves no room for a synthetic persona
///   counts as none. The client's roster row is made after this (see
///   `orchestrate_client_reset`).
pub open spec fn client_reset(
    p: PoolView,
    r: RegistryView,
    ss: Seq<SessionView>,
    client_session_id: u64,
    gid: i64,
    host: i64,
    client_persona: u64,
    ips: Seq<(u64, i32)>,
    now: u64,
) -> (ResetOutcomeView, PoolView, RegistryView) {
    if is_dedicated_session(p.entries, client_session_id) {
        (ResetOutcomeView::FromDedicated, p, r)
    } else if assignment_of(p.assignments, gid) is Some && orch_of(r.orchestration, gid) is Some {
        (ResetOutcomeView::AlreadyOrchestrated(assignment_of(p.assignments, gid)->Some_0.dedicated_session_id), p, r)
    } else {
        let p1 = if assignment_of(p.assignments, gid) is Some {
            stale_dropped(p, gid, now)
        } else {
            p
        };
        let r1 = adopted_pending(r, gid, host).1;
        let wanted = reset_map(r, gid, host);
        let (e, p3) = reset_choice(p1, ss, client_session_id, gid, now);
        match e {
            None => (ResetOutcomeView::NoDedicated, p3, r1),
            Some(e) => if e.blaze_session_id > u64::MAX - 900_000_000_000 {
                (ResetOutcomeView::NoDedicated, p3, r1)
            } else {
                let sid = e.blaze_session_id;
                let h = host_context(e, client_persona, ipv4_of(ips, sid));
                let p4 = reset_assigned(p3, client_session_id, gid, sid, h, wanted, now);
                let hp = match e.persona_id {
                    Some(x) => x as i64,
                    None => match identity_of(p4.identities, sid) {
                        Some(i) => i.persona_id as i64,
                        None => h.persona_id,
                    },
                };
                (
                    ResetOutcomeView::Assigned {
                        dedicated_session_id: sid,
                        wanted_map: wanted,
                        host: h,
                        host_persona: hp,
                        recycle_wait_secs: wait_secs(e, now),
                    },
                    p4,
                    orchestration_begun(r1, gid, client_session_id, sid),
                )
            },
        }
    }
}

/// The persona a reset's client row is for: its session's persona, else the
/// signed-in one.
pub open spec fn reset_client_persona(ss: Seq<SessionView>, sid: u64, client_persona: u64) -> i64 {
    match session_of(ss, sid) {
        Some(x) => match x.persona_id {
            Some(p) => p as i64,
            None => client_persona as i64,
        },
        None => client_persona as i64,
    }
}

/// The name of a reset's client row: its session's display name, else empty.
pub open spec fn reset_client_name(ss: Seq<SessionView>, sid: u64) -> Seq<char> {
    match session_of(ss, sid) {
        Some(x) => match x.display_name {
            Some(n) => n,
            None => Seq::empty(),
        },
        None => Seq::empty(),
    }
}

fn session_find(sessions: &Vec<BlazeSessionInfo>, sid: u64) -> (r: Option<usize>)
    ensures
        match r {
            Some(i) => i < sessions@.len() && session_index(sv(sessions@), sid) == i,
            None => session_index(sv(sessions@), sid) == -1,
        },
{
    let ghost s = sv(sessions@);
    let mut i: usize = 0;
    while i < sessions.len()
        invariant
            i <= sessions@.len(),
            s == sv(sessions@),
            forall|k: int| 0 <= k < i ==> (#[trigger] s[k]).id != sid,
        decreases sessions@.len() - i,
    {
        if sessions[i].id == sid {
            proof {
                lemma_session_index(s, sid, i as int);
            }
            return Some(i);
        }
        i = i + 1;
    }
    proof {
        lemma_session_index(s, sid, i as int);
    }
    None
}

fn copy_sessions(v: &Vec<BlazeSessionInfo>) -> (r: Vec<BlazeSessionInfo>)
    ensures
        sv(r@) == sv(v@),
{
    let mut r: Vec<BlazeSessionInfo> = Vec::new();
    let mut i: usize = 0;
    while i < v.len()
        invariant
            i <= v@.len(),
            sv(r@) == sv(v@).subrange(0, i as int),
        decreases v@.len() - i,
    {
        let ghost before = r@;
        r.push(clone_session(&v[i]));
        assert(sv(r@) =~= sv(before).push(v@[i as int]@));
        assert(sv(v@).subrange(0, i + 1) =~= sv(v@).subrange(0, i as int).push(v@[i as int]@));
        i = i + 1;
    }
    assert(sv(v@).subrange(0, i as int) =~= sv(v@));
    r
}

/// A client's reset of match `gid` (see `client_reset`); once assigned, the
/// client gets its roster row (see `ensure_client_player`), for its session's
/// persona and display name.
pub fn orchestrate_client_reset(
    pool: &mut DedicatedPool,
    reg: &mut GameRegistry,
    sessions: &Vec<BlazeSessionInfo>,
    client_session_id: u64,
    gid: i64,
    host: i64,
    host_name: &str,
    client_persona: u64,
    peer_ipv4s: &Vec<(u64, i32)>,
    now: u64,
) -> (out: ResetOutcome)
    ensures
        ({
            let c = client_reset(
                old(pool)@,
                old(reg)@,
                sv(sessions@),
                client_session_id,
                gid,
                host,
                client_persona,
                peer_ipv4s@,
                now,
            );
            &&& out@ == c.0
            &&& final(pool)@ == c.1
            &&& match out {
                ResetOutcome::Assigned(a) => client_joined(
                    c.2,
                    final(reg)@,
                    gid,
                    reset_client_persona(sv(sessions@), client_session_id, client_persona),
                    reset_client_name(sv(sessions@), client_session_id),
                    host,
                    host_name@,
                    registered_gid(c.1.entries),
                    opt_player_view(a.client_player),
                ),
                _ => final(reg)@ == c.2,
            }
        }),
{
    if pool.is_dedicated_blaze_session(client_session_id) {
        return ResetOutcome::FromDedicated;
    }
    match pool.assigned_dedicated_for_gid(gid) {
        Some(sid) => {
            if reg.has_orchestration(gid) {
                return ResetOutcome::AlreadyOrchestrated(sid);
            }
            let _ = pool.drop_stale_assignment(gid, now);
        },
        None => {},
    }
    let ghost r0 = reg@;
    let mut wanted = reg.get_map_path(gid);
    if str_chars(wanted.as_str()).len() == 0 {
        match reg.adopt_host_lobby_pending_into(gid, host) {
            Some(a) => wanted = a,
            None => {},
        }
    } else {
        assert(adopted_pending(r0, gid, host).1 == r0);
    }
    let wanted_map: Option<String> = if str_chars(wanted.as_str()).len() == 0 {
        None
    } else {
        Some(wanted)
    };
    assert(opt_str(wanted_map) == reset_map(r0, gid, host));
    let ghost p1 = pool@;
    pool.sync_from_blaze_sessions(copy_sessions(sessions), now);
    let dedicated = match pool.dedicated_for_standby_gid(gid) {
        Some(e) => e,
        None => {
            pool.sync_from_blaze_sessions(copy_sessions(sessions), now);
            match pool.acquire_idle_creator_for_map(client_session_id, None, now) {
                Some(e) => e,
                None => return ResetOutcome::NoDedicated,
            }
        },
    };
    assert(reset_choice(p1, sv(sessions@), client_session_id, gid, now) == (Some(dedicated@), pool@));
    let sid = dedicated.blaze_session_id;
    if sid > u64::MAX - 900_000_000_000 {
        return ResetOutcome::NoDedicated;
    }
    let h = host_context_from_entry(&dedicated, client_persona, ipv4_of_exec(peer_ipv4s, sid));
    let map_copy: Option<String> = match &wanted_map {
        Some(m) => Some(m.clone()),
        None => None,
    };
    pool.assign_dedicated_for_reset(client_session_id, gid, sid, h, map_copy, now);
    reg.begin_reset_orchestration(gid, client_session_id, sid);
    let host_persona: i64 = match dedicated.persona_id {
        Some(x) => x as i64,
        None => match pool.dedicated_identity_for_session(sid) {
            Some(i) => i.0 as i64,
            None => h.persona_id,
        },
    };
    let wait = recycle_cmd220_wait_secs(&dedicated, now);
    let (cp, cname): (i64, String) = match session_find(sessions, client_session_id) {
        Some(i) => (
            match sessions[i].persona_id {
                Some(p) => p as i64,
                None => client_persona as i64,
            },
            match &sessions[i].display_name {
                Some(n) => n.clone(),
                None => String::new(),
            },
        ),
        None => (client_persona as i64, String::new()),
    };
    assert(cp == reset_client_persona(sv(sessions@), client_session_id, client_persona));
    assert(cname@ == reset_client_name(sv(sessions@), client_session_id));
    let pool_gid = pool.registered_pool_gid();
    let client_player = reg.ensure_client_player(gid, cp, cname.as_str(), host, host_name, pool_gid);
    ResetOutcome::Assigned(
        ResetAssignment {
            dedicated_session_id: sid,
            wanted_map,
            host: h,
            host_persona,
            recycle_wait_secs: wait,
            client_player,
        },
    )
}

} // verus!
