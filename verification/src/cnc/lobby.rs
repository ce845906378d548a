//! Leaving a game room, and handing an emptied match back to the dedicated pool.
use vstd::prelude::*;
use crate::cnc::dedicated_pool::{
    bound_dedicated, browser_name, browser_server_name, entry_of, ev, reclaim_recent, reclaimed_pool,
    unload_target, unloaded_pool, DedicatedPool, EntryView, PoolView,
};
use crate::cnc::game_state::{
    destroyed_all, game_of, human_personas, humans_dropped, orphan_gids, player_removed,
    reclaim_marked, standby_ensured, standby_reset_view, GameRegistry, RegistryView,
};
use crate::text::{chars_to_string, dec, push_dec, push_str, str_chars};

verus! {

broadcast use vstd::string::group_string_axioms;

/// A dedicated asked to unload the level of a match.
#[derive(Debug, Clone, Copy, PartialEq, Eq, Structural)]
pub struct UnloadRequest {
    pub session: u64,
    pub gid: i64,
}

/// What handing `gid` back to the pool did.
#[derive(Debug, Clone, Copy, PartialEq, Eq, Structural)]
pub struct ReclaimOutcome {
    pub gid: i64,
    /// A reclaim notice went out moments ago, so nothing else was done.
    pub coalesced: bool,
    /// The dedicated that serves `gid` and is back in the pool.
    pub dedicated: Option<u64>,
    /// The level unload asked for: that session's pending pushes are to be
    /// replaced by the reclaim notice.
    pub unload: Option<UnloadRequest>,
}

/// The answer to a leave request.
#[derive(Debug, Clone, Copy, PartialEq, Eq, Structural)]
pub enum LeaveOutcome {
    /// No row for the gid (the resolved persona, once there was one).
    NoGame { pid: Option<i64> },
    /// Several humans remain and no persona says which one leaves.
    PidRequired { humans: usize },
    /// The last human left: the match went back to the pool.
    Reclaimed { reclaim: ReclaimOutcome, pid: Option<i64> },
    /// `pid` left (or became an AI); `humans` remain, hosted by `admin`.
    Left { pid: i64, humans: usize, admin: i64, converted_to_ai: bool },
}

#[derive(Debug, Clone, Copy, PartialEq, Eq, Structural)]
pub struct LeaveResult {
    pub outcome: LeaveOutcome,
    /// The persona whose client is to tear its local game down.
    pub teardown: Option<i64>,
}

// ---------------------------------------------------------------------------
// Reclaim
// ---------------------------------------------------------------------------
pub open spec fn names_view(v: Seq<(u64, String)>) -> Seq<(u64, Seq<char>)> {
    v.map_values(|x: (u64, String)| (x.0, x.1@))
}

/// The display name that the peer of `sid` reads as (first match).
pub open spec fn name_for(names: Seq<(u64, Seq<char>)>, sid: u64) -> Option<Seq<char>>
    decreases names.len(),
{
    if names.len() == 0 {
        None
    } else if names[0].0 == sid {
        Some(names[0].1)
    } else {
        name_for(names.drop_first(), sid)
    }
}

pub open spec fn game_dedicated(r: RegistryView, gid: i64) -> Option<u64> {
    match game_of(r.games, gid) {
        Some(g) => g.dedicated_session_id,
        None => None,
    }
}

/// Name of the standby row of a dedicated: its hostname, else `DED{sid}`.
pub open spec fn standby_hostname(e: EntryView) -> Seq<char> {
    match e.server_hostname {
        Some(h) => h,
        None => "DED"@ + dec(e.blaze_session_id as nat),
    }
}

/// The browser name a standby row of `gid` takes back.
pub open spec fn restore_name_of(r: RegistryView, p: PoolView, gid: i64, names: Seq<(u64, Seq<char>)>) -> Option<Seq<char>> {
    match game_dedicated(r, gid) {
        Some(sid) => match entry_of(p.entries, sid) {
            Some(e) => Some(browser_name(e, name_for(names, sid))),
            None => None,
        },
        None => None,
    }
}

pub open spec fn entry_ids(s: Seq<EntryView>) -> Seq<u64> {
    s.map_values(|e: EntryView| e.blaze_session_id)
}

/// The standby row step: without a row, the dedicated's standby row is created.
pub open spec fn standby_step(ra: RegistryView, rb: RegistryView, p: PoolView, gid: i64, dsid: Option<u64>) -> bool {
    match dsid {
        Some(sid) => match entry_of(p.entries, sid) {
            Some(e) => if game_of(ra.games, gid) is None {
                standby_ensured(ra, rb, gid, standby_hostname(e), sid)
            } else {
                rb == ra
            },
            None => rb == ra,
        },
        None => rb == ra,
    }
}

/// After the standby row step: the row reset for the pool, host lobbies
/// without a live dedicated destroyed.
pub open spec fn after_standby(rb: RegistryView, p: PoolView, gid: i64, names: Seq<(u64, Seq<char>)>) -> RegistryView {
    let rc = standby_reset_view(rb, gid, restore_name_of(rb, p, gid, names));
    destroyed_all(rc, orphan_gids(rc.games, Some(gid), entry_ids(p.entries)))
}

/// What `reclaim_after_empty_humans` does, from (`reg0`, `pool0`) to (`reg1`, `pool1`).
pub open spec fn reclaim_rel(
    reg0: RegistryView,
    pool0: PoolView,
    gid: i64,
    now: u64,
    names: Seq<(u64, Seq<char>)>,
    out: ReclaimOutcome,
    reg1: RegistryView,
    pool1: PoolView,
) -> bool {
    let gd = game_dedicated(reg0, gid);
    if reclaim_recent(pool0, gid, gd, now) {
        &&& out == (ReclaimOutcome { gid, coalesced: true, dedicated: None, unload: None })
        &&& reg1 == reg0
        &&& pool1 == pool0
    } else {
        let dsid = bound_dedicated(pool0, gid, gd);
        let p1 = reclaimed_pool(pool0, gid, gd, now);
        let ra = reclaim_marked(reg0, gid, dsid);
        let unload = match dsid {
            Some(sid) => match unload_target(p1, sid, gid, now) {
                Some(g) => Some(UnloadRequest { session: sid, gid: g }),
                None => None,
            },
            None => None,
        };
        &&& out == (ReclaimOutcome { gid, coalesced: false, dedicated: dsid, unload })
        &&& pool1 == match dsid {
            Some(sid) => unloaded_pool(p1, sid, gid, now),
            None => p1,
        }
        &&& exists|rb: RegistryView|
            #![trigger standby_step(ra, rb, p1, gid, dsid)]
            standby_step(ra, rb, p1, gid, dsid) && reg1 == after_standby(rb, p1, gid, names)
    }
}

pub(crate) fn name_for_exec(names: &Vec<(u64, String)>, sid: u64) -> (r: Option<String>)
    ensures
        match r {
            Some(n) => name_for(names_view(names@), sid) == Some(n@),
            None => name_for(names_view(names@), sid) is None,
        },
{
    let ghost s = names_view(names@);
    let mut i: usize = 0;
    assert(s.subrange(0, s.len() as int) =~= s);
    while i < names.len()
        invariant
            i <= names@.len(),
            s == names_view(names@),
            name_for(s, sid) == name_for(s.subrange(i as int, s.len() as int), sid),
        decreases names@.len() - i,
    {
        let ghost t = s.subrange(i as int, s.len() as int);
        assert(t[0] == (names@[i as int].0, names@[i as int].1@));
        assert(t.drop_first() =~= s.subrange(i + 1, s.len() as int));
        if names[i].0 == sid {
            return Some(names[i].1.clone());
        }
        i = i + 1;
    }
    None
}

fn live_entry_ids(pool: &DedicatedPool) -> (v: Vec<u64>)
    ensures
        v@ == entry_ids(pool@.entries),
{
    let entries = pool.list_entries();
    let ghost s = ev(entries@);
    let mut v: Vec<u64> = Vec::new();
    let mut i: usize = 0;
    while i < entries.len()
        invariant
            i <= entries@.len(),
            s == ev(entries@),
            s == pool@.entries,
            v@ == entry_ids(s).subrange(0, i as int),
        decreases entries@.len() - i,
    {
        assert(s[i as int] == entries@[i as int]@);
        v.push(entries[i].blaze_session_id);
        assert(v@ =~= entry_ids(s).subrange(0, i + 1));
        i = i + 1;
    }
    assert(v@ =~= entry_ids(s));
    v
}

/// Hands `gid`, whose last human left, back to the dedicated pool: its
/// dedicated goes recycling, its row becomes a reset standby row (created from
/// the dedicated when missing), host lobbies without a live dedicated go, and
/// the dedicated is asked to unload its level. `peer_names` gives what each
/// dedicated's peer address reads as, for the row's browser name.
pub fn reclaim_after_empty_humans(
    reg: &mut GameRegistry,
    pool: &mut DedicatedPool,
    gid: i64,
    peer_names: &Vec<(u64, String)>,
    now: u64,
) -> (out: ReclaimOutcome)
    ensures
        reclaim_rel(old(reg)@, old(pool)@, gid, now, names_view(peer_names@), out, final(reg)@, final(pool)@),
{
    let gd = reg.dedicated_session_id_for_gid(gid);
    if pool.reclaim_notify_recent_for_gid(gid, gd, now) {
        return ReclaimOutcome { gid, coalesced: true, dedicated: None, unload: None };
    }
    let dsid = pool.reclaim_gid_to_idle_pool(gid, gd, now);
    let ghost p1 = pool@;
    reg.mark_reclaimed_standby(gid, dsid);
    let ghost ra = reg@;
    if !reg.contains_game(gid) {
        match dsid {
            Some(sid) => match pool.get_entry(sid) {
                Some(e) => {
                    let hostname = match e.server_hostname {
                        Some(h) => h,
                        None => {
                            let mut o: Vec<char> = Vec::new();
                            push_str(&mut o, "DED");
                            push_dec(&mut o, sid);
                            proof {
                                reveal_strlit("DED");
                            }
                            assert(o@ =~= "DED"@ + dec(sid as nat));
                            chars_to_string(&o)
                        },
                    };
                    reg.ensure_standby_game(gid, hostname.as_str(), sid);
                },
                None => {},
            },
            None => {},
        }
    }
    let ghost rb = reg@;
    assert(standby_step(ra, rb, p1, gid, dsid));
    let restore = match reg.dedicated_session_id_for_gid(gid) {
        Some(sid) => match pool.get_entry(sid) {
            Some(e) => Some(browser_server_name(&e, name_for_exec(peer_names, sid))),
            None => None,
        },
        None => None,
    };
    reg.reset_standby_after_pool_return(gid, restore);
    let live = live_entry_ids(pool);
    let _ = reg.destroy_orphan_host_lobbies(Some(gid), &live);
    assert(reg@ == after_standby(rb, p1, gid, names_view(peer_names@)));
    let unload = match dsid {
        Some(sid) => match pool.request_dedicated_level_unload(sid, gid, now) {
            Some(g) => Some(UnloadRequest { session: sid, gid: g }),
            None => None,
        },
        None => None,
    };
    ReclaimOutcome { gid, coalesced: false, dedicated: dsid, unload }
}

// ---------------------------------------------------------------------------
// Leaving
// ---------------------------------------------------------------------------
/// Who leaves: the given persona, else the session's, when among the humans;
/// else the only human; else nobody in particular when clearing by force; else
/// the given or the session's persona; `None` when nothing says who.
pub open spec fn resolve_leave_pid(humans: Seq<i64>, persona_id: i64, session_pid: i64, force_clear: bool) -> Option<i64> {
    if persona_id > 0 && humans.contains(persona_id) {
        Some(persona_id)
    } else if session_pid > 0 && humans.contains(session_pid) {
        Some(session_pid)
    } else if humans.len() == 1 {
        Some(humans[0])
    } else if force_clear {
        Some(0)
    } else if persona_id > 0 {
        Some(persona_id)
    } else if session_pid > 0 {
        Some(session_pid)
    } else {
        None
    }
}

pub open spec fn positive(p: i64) -> Option<i64> {
    if p > 0 {
        Some(p)
    } else {
        None
    }
}

pub open spec fn game_host(r: RegistryView, gid: i64) -> i64 {
    match game_of(r.games, gid) {
        Some(g) => g.host_persona,
        None => 0,
    }
}

/// The removal step of a leave: every human dropped when clearing by force
/// with nobody named, else persona `pid` removed.
pub open spec fn leave_removed(
    reg0: RegistryView,
    rm: RegistryView,
    gid: i64,
    pid: i64,
    force_clear: bool,
    rem: Option<(usize, bool)>,
) -> bool {
    if force_clear && pid == 0 {
        rm == humans_dropped(reg0, gid) && rem == Some((0usize, false))
    } else {
        player_removed(reg0, rm, gid, pid, rem)
    }
}

/// What `leave_gameroom_ex` does, from (`reg0`, `pool0`) to (`reg1`, `pool1`).
pub open spec fn leave_rel(
    reg0: RegistryView,
    pool0: PoolView,
    gid: i64,
    persona_id: i64,
    force_clear: bool,
    session_pid: i64,
    now: u64,
    names: Seq<(u64, Seq<char>)>,
    res: LeaveResult,
    reg1: RegistryView,
    pool1: PoolView,
) -> bool {
    match game_of(reg0.games, gid) {
        None => res == (LeaveResult { outcome: LeaveOutcome::NoGame { pid: None }, teardown: None }) && reg1 == reg0
            && pool1 == pool0,
        Some(g) => {
            let humans = human_personas(g.players);
            if humans.len() == 0 {
                &&& res.teardown == positive(session_pid)
                &&& res.outcome matches LeaveOutcome::Reclaimed { reclaim, pid }
                &&& pid is None
                &&& reclaim_rel(reg0, pool0, gid, now, names, reclaim, reg1, pool1)
            } else {
                match resolve_leave_pid(humans, persona_id, session_pid, force_clear) {
                    None => res == (LeaveResult {
                        outcome: LeaveOutcome::PidRequired { humans: humans.len() as usize },
                        teardown: None,
                    }) && reg1 == reg0 && pool1 == pool0,
                    Some(pid) => exists|rm: RegistryView, rem: Option<(usize, bool)>|
                        #![trigger leave_removed(reg0, rm, gid, pid, force_clear, rem)]
                        leave_removed(reg0, rm, gid, pid, force_clear, rem) && match rem {
                            Some(x) => if x.0 == 0 {
                                &&& res.teardown == positive(
                                    if pid > 0 {
                                        pid
                                    } else {
                                        session_pid
                                    },
                                )
                                &&& res.outcome matches LeaveOutcome::Reclaimed { reclaim, pid: p }
                                &&& p == Some(pid)
                                &&& reclaim_rel(rm, pool0, gid, now, names, reclaim, reg1, pool1)
                            } else {
                                &&& res == (LeaveResult {
                                    outcome: LeaveOutcome::Left {
                                        pid,
                                        humans: x.0,
                                        admin: game_host(rm, gid),
                                        converted_to_ai: x.1,
                                    },
                                    teardown: None,
                                })
                                &&& reg1 == rm
                                &&& pool1 == pool0
                            },
                            None => res == (LeaveResult {
                                outcome: LeaveOutcome::NoGame { pid: Some(pid) },
                                teardown: None,
                            }) && reg1 == rm && pool1 == pool0,
                        },
                }
            }
        },
    }
}

fn contains_i64(v: &Vec<i64>, x: i64) -> (b: bool)
    ensures
        b == v@.contains(x),
{
    let mut i: usize = 0;
    while i < v.len()
        invariant
            i <= v@.len(),
            forall|k: int| 0 <= k < i ==> v@[k] != x,
        decreases v@.len() - i,
    {
        if v[i] == x {
            assert(v@[i as int] == x);
            return true;
        }
        i = i + 1;
    }
    false
}

/// See `resolve_leave_pid`.
pub fn resolve_leave_persona(humans: &Vec<i64>, persona_id: i64, session_pid: i64, force_clear: bool) -> (r: Option<i64>)
    ensures
        r == resolve_leave_pid(humans@, persona_id, session_pid, force_clear),
{
    if persona_id > 0 && contains_i64(humans, persona_id) {
        Some(persona_id)
    } else if session_pid > 0 && contains_i64(humans, session_pid) {
        Some(session_pid)
    } else if humans.len() == 1 {
        Some(humans[0])
    } else if force_clear {
        Some(0)
    } else if persona_id > 0 {
        Some(persona_id)
    } else if session_pid > 0 {
        Some(session_pid)
    } else {
        None
    }
}

/// A persona leaves the room `gid` (`force_clear`: clear every human when
/// nobody is named). A leaving human becomes an AI while other humans stay; the
/// room of the last human goes back to the pool. `session_pid` is the persona of
/// the calling session (0 when none).
pub fn leave_gameroom_ex(
    reg: &mut GameRegistry,
    pool: &mut DedicatedPool,
    gid: i64,
    persona_id: i64,
    force_clear: bool,
    session_pid: i64,
    peer_names: &Vec<(u64, String)>,
    now: u64,
) -> (res: LeaveResult)
    ensures
        leave_rel(
            old(reg)@,
            old(pool)@,
            gid,
            persona_id,
            force_clear,
            session_pid,
            now,
            names_view(peer_names@),
            res,
            final(reg)@,
            final(pool)@,
        ),
{
    let ghost reg0 = reg@;
    let humans = match reg.human_personas_of(gid) {
        Some(h) => h,
        None => return LeaveResult { outcome: LeaveOutcome::NoGame { pid: None }, teardown: None },
    };
    if humans.len() == 0 {
        let teardown = if session_pid > 0 {
            Some(session_pid)
        } else {
            None
        };
        let reclaim = reclaim_after_empty_humans(reg, pool, gid, peer_names, now);
        return LeaveResult { outcome: LeaveOutcome::Reclaimed { reclaim, pid: None }, teardown };
    }
    let pid = match resolve_leave_persona(&humans, persona_id, session_pid, force_clear) {
        Some(p) => p,
        None => {
            return LeaveResult { outcome: LeaveOutcome::PidRequired { humans: humans.len() }, teardown: None };
        },
    };
    let rem: Option<(usize, bool)> = if force_clear && pid == 0 {
        let _ = reg.drop_humans(gid);
        Some((0usize, false))
    } else {
        reg.remove_player_ex(gid, pid)
    };
    let ghost rm = reg@;
    assert(leave_removed(reg0, rm, gid, pid, force_clear, rem));
    match rem {
        Some((n, converted)) => {
            if n == 0 {
                let t = if pid > 0 {
                    pid
                } else {
                    session_pid
                };
                let teardown = if t > 0 {
                    Some(t)
                } else {
                    None
                };
                let reclaim = reclaim_after_empty_humans(reg, pool, gid, peer_names, now);
                LeaveResult { outcome: LeaveOutcome::Reclaimed { reclaim, pid: Some(pid) }, teardown }
            } else {
                let admin = reg.host_persona_for_gid(gid, 0);
                LeaveResult {
                    outcome: LeaveOutcome::Left { pid, humans: n, admin, converted_to_ai: converted },
                    teardown: None,
                }
            }
        },
        None => LeaveResult { outcome: LeaveOutcome::NoGame { pid: Some(pid) }, teardown: None },
    }
}

/// `leave_gameroom_ex` without the force clear.
pub fn leave_gameroom(
    reg: &mut GameRegistry,
    pool: &mut DedicatedPool,
    gid: i64,
    persona_id: i64,
    session_pid: i64,
    peer_names: &Vec<(u64, String)>,
    now: u64,
) -> (res: LeaveResult)
    ensures
        leave_rel(
            old(reg)@,
            old(pool)@,
            gid,
            persona_id,
            false,
            session_pid,
            now,
            names_view(peer_names@),
            res,
            final(reg)@,
            final(pool)@,
        ),
{
    leave_gameroom_ex(reg, pool, gid, persona_id, false, session_pid, peer_names, now)
}

/// Each leave of `gids[k]` takes states `k` to `k + 1` with result `results[k]`.
pub open spec fn leave_chain(
    regs: Seq<RegistryView>,
    pools: Seq<PoolView>,
    gids: Seq<i64>,
    persona_id: i64,
    session_pid: i64,
    now: u64,
    names: Seq<(u64, Seq<char>)>,
    results: Seq<LeaveResult>,
) -> bool {
    &&& regs.len() == gids.len() + 1
    &&& pools.len() == gids.len() + 1
    &&& results.len() == gids.len()
    &&& forall|k: int|
        0 <= k < gids.len() ==> #[trigger] leave_rel(
            regs[k],
            pools[k],
            gids[k],
            persona_id,
            false,
            session_pid,
            now,
            names,
            results[k],
            regs[k + 1],
            pools[k + 1],
        )
}

/// Takes persona `persona_id` out of every room where it plays as a human
/// (by increasing gid); the leave result of each.
pub fn purge_persona_from_lobbies(
    reg: &mut GameRegistry,
    pool: &mut DedicatedPool,
    persona_id: i64,
    session_pid: i64,
    peer_names: &Vec<(u64, String)>,
    now: u64,
) -> (results: Vec<LeaveResult>)
    ensures
        persona_id <= 0 ==> results@.len() == 0 && final(reg)@ == old(reg)@ && final(pool)@ == old(pool)@,
        persona_id > 0 ==> exists|regs: Seq<RegistryView>, pools: Seq<PoolView>|
            #![trigger leave_chain(regs, pools, crate::cnc::game_state::human_gids(old(reg)@.games, persona_id), persona_id, session_pid, now, names_view(peer_names@), results@)]
            leave_chain(
                regs,
                pools,
                crate::cnc::game_state::human_gids(old(reg)@.games, persona_id),
                persona_id,
                session_pid,
                now,
                names_view(peer_names@),
                results@,
            ) && regs[0] == old(reg)@ && pools[0] == old(pool)@ && regs.last() == final(reg)@ && pools.last()
                == final(pool)@,
{
    let mut results: Vec<LeaveResult> = Vec::new();
    if persona_id <= 0 {
        return results;
    }
    let gids = reg.gids_for_human_persona(persona_id);
    let ghost mut regs: Seq<RegistryView> = seq![reg@];
    let ghost mut pools: Seq<PoolView> = seq![pool@];
    let ghost names = names_view(peer_names@);
    let mut i: usize = 0;
    while i < gids.len()
        invariant
            i <= gids@.len(),
            names == names_view(peer_names@),
            leave_chain(regs, pools, gids@.subrange(0, i as int), persona_id, session_pid, now, names, results@),
            regs.last() == reg@,
            pools.last() == pool@,
            regs[0] == old(reg)@,
            pools[0] == old(pool)@,
        decreases gids@.len() - i,
    {
        let ghost r0 = reg@;
        let ghost p0 = pool@;
        let res = leave_gameroom_ex(reg, pool, gids[i], persona_id, false, session_pid, peer_names, now);
        proof {
            let old_regs = regs;
            let old_pools = pools;
            regs = regs.push(reg@);
            pools = pools.push(pool@);
            let g2 = gids@.subrange(0, i + 1);
            assert forall|k: int| 0 <= k < g2.len() implies #[trigger] leave_rel(
                regs[k],
                pools[k],
                g2[k],
                persona_id,
                false,
                session_pid,
                now,
                names,
                results@.push(res)[k],
                regs[k + 1],
                pools[k + 1],
            ) by {
                if k < i {
                    assert(g2[k] == gids@.subrange(0, i as int)[k]);
                    assert(results@.push(res)[k] == results@[k]);
                    assert(regs[k] == old_regs[k]);
                    assert(regs[k + 1] == old_regs[k + 1]);
                    assert(pools[k] == old_pools[k]);
                    assert(pools[k + 1] == old_pools[k + 1]);
                } else {
                    assert(regs[k] == r0);
                    assert(pools[k] == p0);
                }
            }
        }
        results.push(res);
        i = i + 1;
    }
    assert(gids@.subrange(0, i as int) =~= gids@);
    results
}

} // verus!
