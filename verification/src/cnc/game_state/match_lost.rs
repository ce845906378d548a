//! A lost match server: which personas are told so, which match a bare report
//! means, and what a client polling its connection is answered.
use vstd::prelude::*;
use crate::cnc::dedicated_pool::{sv, BlazeSessionInfo, SessionView};
use crate::cnc::game_state::{
    game_of, games_view, orch_view, players_view, CncPlayer, GamePhase, GameRegistry, GameView, OrchView,
    PlayerView, RegistryView,
};

verus! {

/// `PlayerRemoved` reason sent when the match is gone.
pub const PLAYER_REMOVED_REASON_GAME_DESTROYED: i32 = 4;

// ---------------------------------------------------------------------------
// Sessions of a persona
// ---------------------------------------------------------------------------
/// The Blaze sessions of persona `pid` (none for a persona that is not positive).
pub open spec fn persona_sessions(ss: Seq<SessionView>, pid: i64) -> Seq<u64>
    decreases ss.len(),
{
    if ss.len() == 0 || pid <= 0 {
        Seq::empty()
    } else {
        let r = persona_sessions(ss.drop_last(), pid);
        if ss.last().persona_id == Some(pid as u64) {
            r.push(ss.last().id)
        } else {
            r
        }
    }
}

/// The first Blaze session of persona `pid`.
pub open spec fn first_session(ss: Seq<SessionView>, pid: i64) -> Option<u64> {
    if persona_sessions(ss, pid).len() > 0 {
        Some(persona_sessions(ss, pid)[0])
    } else {
        None
    }
}

fn persona_sessions_exec(sessions: &Vec<BlazeSessionInfo>, pid: i64) -> (v: Vec<u64>)
    ensures
        v@ == persona_sessions(sv(sessions@), pid),
{
    let ghost ss = sv(sessions@);
    let mut v: Vec<u64> = Vec::new();
    if pid <= 0 {
        assert(persona_sessions(ss, pid) =~= Seq::<u64>::empty());
        return v;
    }
    let mut i: usize = 0;
    while i < sessions.len()
        invariant
            pid > 0,
            i <= sessions@.len(),
            ss == sv(sessions@),
            v@ == persona_sessions(ss.subrange(0, i as int), pid),
        decreases sessions@.len() - i,
    {
        let ghost t = ss.subrange(0, i + 1);
        assert(t.drop_last() =~= ss.subrange(0, i as int));
        assert(t.last() == sessions@[i as int]@);
        if sessions[i].persona_id == Some(pid as u64) {
            v.push(sessions[i].id);
        }
        i = i + 1;
    }
    assert(ss.subrange(0, i as int) =~= ss);
    v
}

/// The first Blaze session of persona `persona_id` among `sessions`.
pub fn blaze_session_for_persona(sessions: &Vec<BlazeSessionInfo>, persona_id: i64) -> (r: Option<u64>)
    ensures
        r == first_session(sv(sessions@), persona_id),
{
    let v = persona_sessions_exec(sessions, persona_id);
    if v.len() > 0 {
        Some(v[0])
    } else {
        None
    }
}

fn contains_u64(v: &Vec<u64>, x: u64) -> (b: bool)
    ensures
        b == v@.contains(x),
{
    crate::cnc::game_state::contains_u64(v, x)
}

// ---------------------------------------------------------------------------
// Lost personas: (persona, gid, session)
// ---------------------------------------------------------------------------
pub open spec fn lost_without_pid(s: Seq<(i64, i64, u64)>, pid: i64) -> Seq<(i64, i64, u64)>
    decreases s.len(),
{
    if s.len() == 0 {
        s
    } else {
        let r = lost_without_pid(s.drop_last(), pid);
        if s.last().0 != pid {
            r.push(s.last())
        } else {
            r
        }
    }
}

/// The record of persona `pid` replaced by `(gid, sid)`.
pub open spec fn lost_inserted(s: Seq<(i64, i64, u64)>, pid: i64, gid: i64, sid: u64) -> Seq<(i64, i64, u64)> {
    lost_without_pid(s, pid).push((pid, gid, sid))
}

/// The record of persona `pid`: its gid and session.
pub open spec fn lost_of(s: Seq<(i64, i64, u64)>, pid: i64) -> Option<(i64, u64)>
    decreases s.len(),
{
    if s.len() == 0 {
        None
    } else if s.last().0 == pid {
        Some((s.last().1, s.last().2))
    } else {
        lost_of(s.drop_last(), pid)
    }
}

pub proof fn lemma_lost_without_pid(s: Seq<(i64, i64, u64)>, pid: i64)
    ensures
        lost_of(lost_without_pid(s, pid), pid) is None,
        forall|q: i64| q != pid ==> #[trigger] lost_of(lost_without_pid(s, pid), q) == lost_of(s, q),
    decreases s.len(),
{
    if s.len() > 0 {
        lemma_lost_without_pid(s.drop_last(), pid);
        let r = lost_without_pid(s.drop_last(), pid);
        if s.last().0 != pid {
            let w = r.push(s.last());
            assert(w.drop_last() =~= r);
            assert(lost_without_pid(s, pid) == w);
            assert forall|q: i64| q != pid implies #[trigger] lost_of(lost_without_pid(s, pid), q) == lost_of(s, q) by {
                assert(lost_of(r, q) == lost_of(s.drop_last(), q));
            }
        } else {
            assert(lost_without_pid(s, pid) == r);
            assert forall|q: i64| q != pid implies #[trigger] lost_of(lost_without_pid(s, pid), q) == lost_of(s, q) by {
                assert(lost_of(r, q) == lost_of(s.drop_last(), q));
            }
        }
    }
}

/// The humans of a roster with a positive persona, in roster order.
pub open spec fn positive_humans(ps: Seq<PlayerView>) -> Seq<i64>
    decreases ps.len(),
{
    if ps.len() == 0 {
        Seq::empty()
    } else {
        let r = positive_humans(ps.drop_last());
        if !ps.last().is_ai && ps.last().persona_id > 0 {
            r.push(ps.last().persona_id)
        } else {
            r
        }
    }
}

/// Every persona of `pids`, in turn, recorded as lost in match `gid` with its first session (else 0).
pub open spec fn all_marked(s: Seq<(i64, i64, u64)>, pids: Seq<i64>, gid: i64, ss: Seq<SessionView>) -> Seq<(i64, i64, u64)>
    decreases pids.len(),
{
    if pids.len() == 0 {
        s
    } else {
        let p = pids.last();
        let sid = match first_session(ss, p) {
            Some(x) => x,
            None => 0,
        };
        lost_inserted(all_marked(s, pids.drop_last(), gid, ss), p, gid, sid)
    }
}

/// What marking the humans of match `gid` as lost leaves.
pub open spec fn humans_marked(r: RegistryView, gid: i64, ss: Seq<SessionView>) -> RegistryView {
    if gid <= 0 {
        r
    } else {
        match game_of(r.games, gid) {
            Some(g) => RegistryView {
                lost_personas: all_marked(r.lost_personas, positive_humans(g.players), gid, ss),
                ..r
            },
            None => r,
        }
    }
}

/// What recording persona `pid` as lost in `gid` leaves (a negative gid counts as 0).
pub open spec fn persona_marked(r: RegistryView, pid: i64, gid: i64, ss: Seq<SessionView>) -> RegistryView {
    if pid <= 0 {
        r
    } else {
        RegistryView {
            lost_personas: lost_inserted(
                r.lost_personas,
                pid,
                if gid > 0 {
                    gid
                } else {
                    0
                },
                match first_session(ss, pid) {
                    Some(x) => x,
                    None => 0,
                },
            ),
            ..r
        }
    }
}

pub open spec fn server_noted(r: RegistryView, gid: i64, now: u64) -> RegistryView {
    if gid > 0 {
        RegistryView { server_lost: r.server_lost.push((gid, now)), ..r }
    } else {
        r
    }
}

/// What a shell report of a lost match leaves: a persona is recorded alone
/// (with the match's note), a bare match marks all its humans.
pub open spec fn shell_loss_noted(r: RegistryView, gid: i64, pid: i64, ss: Seq<SessionView>, now: u64) -> RegistryView {
    if pid > 0 {
        server_noted(persona_marked(r, pid, gid, ss), gid, now)
    } else if gid > 0 {
        humans_marked(server_noted(r, gid, now), gid, ss)
    } else {
        r
    }
}

// ---------------------------------------------------------------------------
// The active match
// ---------------------------------------------------------------------------
pub open spec fn max_opt(a: Option<i64>, b: i64) -> Option<i64> {
    match a {
        Some(x) => Some(if x >= b {
            x
        } else {
            b
        }),
        None => Some(b),
    }
}

/// The largest gid with a client-driven orchestration.
pub open spec fn max_orch_gid(s: Seq<OrchView>) -> Option<i64>
    decreases s.len(),
{
    if s.len() == 0 {
        None
    } else {
        let r = max_orch_gid(s.drop_last());
        if s.last().client_session_id > 0 {
            max_opt(r, s.last().gid)
        } else {
            r
        }
    }
}

/// The largest gid of a live match that is not a standby row.
pub open spec fn max_ingame_gid(s: Seq<GameView>) -> Option<i64>
    decreases s.len(),
{
    if s.len() == 0 {
        None
    } else {
        let r = max_ingame_gid(s.drop_last());
        if !s.last().is_standby && s.last().phase == GamePhase::InGame {
            max_opt(r, s.last().gid)
        } else {
            r
        }
    }
}

/// The match a report of gid `hint` means: `hint` itself when positive, else
/// the newest orchestrated match, else the newest live match, else 0.
pub open spec fn active_match_gid(r: RegistryView, hint: i64) -> i64 {
    if hint > 0 {
        hint
    } else {
        match max_orch_gid(r.orchestration) {
            Some(g) => g,
            None => match max_ingame_gid(r.games) {
                Some(g) => g,
                None => 0,
            },
        }
    }
}

/// Personas told to tear their match down.
#[derive(Debug, Clone, PartialEq, Eq)]
pub struct MatchTeardown {
    pub gid: i64,
    pub personas: Vec<i64>,
    pub reason: i32,
}

/// The answer to a connection-status poll.
#[derive(Debug, Clone, Copy, PartialEq, Eq, Structural)]
pub struct MatchConnectionStatus {
    pub lost: bool,
    pub gid: i64,
    pub pid: i64,
    pub server_lost: bool,
    pub client_lost: bool,
    pub shell_lost: bool,
}

/// The humans of a roster (any persona), in roster order.
pub open spec fn all_humans(ps: Seq<PlayerView>) -> Seq<i64>
    decreases ps.len(),
{
    if ps.len() == 0 {
        Seq::empty()
    } else {
        let r = all_humans(ps.drop_last());
        if !ps.last().is_ai {
            r.push(ps.last().persona_id)
        } else {
            r
        }
    }
}

/// Who is told to leave match `gid`: its humans, else the local persona when positive.
pub open spec fn teardown_targets(r: RegistryView, gid: i64, fallback_pid: i64) -> Seq<i64> {
    let humans = match game_of(r.games, gid) {
        Some(g) => all_humans(g.players),
        None => Seq::empty(),
    };
    if humans.len() > 0 {
        humans
    } else if fallback_pid > 0 {
        seq![fallback_pid]
    } else {
        Seq::empty()
    }
}

/// Whether persona `pid` reads as lost for `gid`, and what the check leaves: a
/// record whose session is gone (or unknown) is dropped and does not count.
pub open spec fn lost_check(r: RegistryView, pid: i64, gid: i64, ss: Seq<SessionView>) -> (bool, RegistryView) {
    if pid <= 0 {
        (false, r)
    } else {
        match lost_of(r.lost_personas, pid) {
            Some((lost_gid, sid)) => if sid == 0 || !persona_sessions(ss, pid).contains(sid) {
                (false, RegistryView { lost_personas: lost_without_pid(r.lost_personas, pid), ..r })
            } else {
                (gid <= 0 || lost_gid <= 0 || lost_gid == gid, r)
            },
            None => (false, r),
        }
    }
}

fn session_or_zero(sessions: &Vec<BlazeSessionInfo>, pid: i64) -> (sid: u64)
    ensures
        sid == match first_session(sv(sessions@), pid) {
            Some(x) => x,
            None => 0,
        },
{
    match blaze_session_for_persona(sessions, pid) {
        Some(x) => x,
        None => 0,
    }
}

fn positive_humans_exec(players: &Vec<CncPlayer>) -> (v: Vec<i64>)
    ensures
        v@ == positive_humans(players_view(players@)),
{
    let ghost ps = players_view(players@);
    let mut v: Vec<i64> = Vec::new();
    let mut k: usize = 0;
    while k < players.len()
        invariant
            k <= players@.len(),
            ps == players_view(players@),
            v@ == positive_humans(ps.subrange(0, k as int)),
        decreases players@.len() - k,
    {
        let ghost t = ps.subrange(0, k + 1);
        assert(t.drop_last() =~= ps.subrange(0, k as int));
        assert(t.last() == players@[k as int]@);
        if !players[k].is_ai && players[k].persona_id > 0 {
            v.push(players[k].persona_id);
        }
        k = k + 1;
    }
    assert(ps.subrange(0, k as int) =~= ps);
    v
}

fn all_humans_exec(players: &Vec<CncPlayer>) -> (v: Vec<i64>)
    ensures
        v@ == all_humans(players_view(players@)),
{
    let ghost ps = players_view(players@);
    let mut v: Vec<i64> = Vec::new();
    let mut k: usize = 0;
    while k < players.len()
        invariant
            k <= players@.len(),
            ps == players_view(players@),
            v@ == all_humans(ps.subrange(0, k as int)),
        decreases players@.len() - k,
    {
        let ghost t = ps.subrange(0, k + 1);
        assert(t.drop_last() =~= ps.subrange(0, k as int));
        assert(t.last() == players@[k as int]@);
        if !players[k].is_ai {
            v.push(players[k].persona_id);
        }
        k = k + 1;
    }
    assert(ps.subrange(0, k as int) =~= ps);
    v
}

impl GameRegistry {
    fn lost_remove_pid(&mut self, pid: i64)
        ensures
            final(self)@ == (RegistryView {
                lost_personas: lost_without_pid(old(self)@.lost_personas, pid),
                ..old(self)@
            }),
    {
        proof {
            use_type_invariant(&*self);
        }
        let ghost s = self.lost_personas@;
        let mut kept: Vec<(i64, i64, u64)> = Vec::new();
        let mut i: usize = 0;
        while i < self.lost_personas.len()
            invariant
                i <= self.lost_personas@.len(),
                s == self.lost_personas@,
                kept@ == lost_without_pid(s.subrange(0, i as int), pid),
            decreases self.lost_personas@.len() - i,
        {
            assert(s.subrange(0, i + 1).drop_last() =~= s.subrange(0, i as int));
            let x = self.lost_personas[i];
            if x.0 != pid {
                kept.push(x);
            }
            i = i + 1;
        }
        assert(s.subrange(0, i as int) =~= s);
        self.lost_personas = kept;
    }

    fn lost_insert(&mut self, pid: i64, gid: i64, sid: u64)
        ensures
            final(self)@ == (RegistryView {
                lost_personas: lost_inserted(old(self)@.lost_personas, pid, gid, sid),
                ..old(self)@
            }),
    {
        proof {
            use_type_invariant(&*self);
        }
        self.lost_remove_pid(pid);
        let mut v: Vec<(i64, i64, u64)> = Vec::new();
        std::mem::swap(&mut v, &mut self.lost_personas);
        v.push((pid, gid, sid));
        self.lost_personas = v;
    }

    fn lost_lookup(&self, pid: i64) -> (r: Option<(i64, u64)>)
        ensures
            r == lost_of(self@.lost_personas, pid),
    {
        let ghost s = self@.lost_personas;
        let mut i: usize = self.lost_personas.len();
        assert(s.subrange(0, i as int) =~= s);
        while i > 0
            invariant
                i <= s.len(),
                s == self@.lost_personas,
                lost_of(s, pid) == lost_of(s.subrange(0, i as int), pid),
            decreases i,
        {
            let x = self.lost_personas[i - 1];
            let ghost t = s.subrange(0, i as int);
            assert(t.drop_last() =~= s.subrange(0, i - 1));
            if x.0 == pid {
                return Some((x.1, x.2));
            }
            i = i - 1;
        }
        None
    }

    /// Forgets that persona `pid` lost its match (positive personas).
    pub fn clear_persona_match_lost(&mut self, pid: i64)
        ensures
            final(self)@ == if pid > 0 {
                RegistryView { lost_personas: lost_without_pid(old(self)@.lost_personas, pid), ..old(self)@ }
            } else {
                old(self)@
            },
    {
        if pid <= 0 {
            return;
        }
        self.lost_remove_pid(pid);
    }

    fn note_persona_lost(&mut self, pid: i64, gid: i64, sessions: &Vec<BlazeSessionInfo>)
        ensures
            final(self)@ == persona_marked(old(self)@, pid, gid, sv(sessions@)),
    {
        if pid <= 0 {
            return;
        }
        let sid = session_or_zero(sessions, pid);
        self.lost_insert(
            pid,
            if gid > 0 {
                gid
            } else {
                0
            },
            sid,
        );
    }

    fn mark_humans_lost(&mut self, gid: i64, sessions: &Vec<BlazeSessionInfo>)
        ensures
            final(self)@ == humans_marked(old(self)@, gid, sv(sessions@)),
    {
        if gid <= 0 {
            return;
        }
        let pids = match self.get_game(gid) {
            Some(g) => positive_humans_exec(&g.players),
            None => return,
        };
        let ghost r0 = self@;
        let ghost ss = sv(sessions@);
        let mut i: usize = 0;
        while i < pids.len()
            invariant
                i <= pids@.len(),
                ss == sv(sessions@),
                self@ == (RegistryView {
                    lost_personas: all_marked(r0.lost_personas, pids@.subrange(0, i as int), gid, ss),
                    ..r0
                }),
            decreases pids@.len() - i,
        {
            let ghost t = pids@.subrange(0, i + 1);
            assert(t.drop_last() =~= pids@.subrange(0, i as int));
            let sid = session_or_zero(sessions, pids[i]);
            self.lost_insert(pids[i], gid, sid);
            i = i + 1;
        }
        assert(pids@.subrange(0, i as int) =~= pids@);
    }

    /// A lost match reported by the shell: persona `pid` when positive (with
    /// the match's note when `gid` is positive), else every human of `gid`.
    pub fn notify_shell_match_lost(&mut self, gid: i64, pid: i64, sessions: &Vec<BlazeSessionInfo>, now: u64)
        ensures
            final(self)@ == shell_loss_noted(old(self)@, gid, pid, sv(sessions@), now),
    {
        if pid > 0 {
            self.note_persona_lost(pid, gid, sessions);
            self.note_server_lost(gid, now);
            return;
        }
        if gid > 0 {
            self.note_server_lost(gid, now);
            self.mark_humans_lost(gid, sessions);
        }
    }

    /// The match that a report of gid `hint` means (see `active_match_gid`).
    pub fn resolve_active_match_gid(&self, hint: i64) -> (g: i64)
        ensures
            g == active_match_gid(self@, hint),
    {
        if hint > 0 {
            return hint;
        }
        let ghost os = self@.orchestration;
        let mut best: Option<i64> = None;
        let mut i: usize = 0;
        while i < self.orchestration.len()
            invariant
                i <= os.len(),
                os == orch_view(self.orchestration@),
                best == max_orch_gid(os.subrange(0, i as int)),
            decreases os.len() - i,
        {
            let ghost t = os.subrange(0, i + 1);
            assert(t.drop_last() =~= os.subrange(0, i as int));
            assert(t.last() == self.orchestration@[i as int]@);
            let o = &self.orchestration[i];
            if o.client_session_id > 0 {
                best = match best {
                    Some(x) => Some(if x >= o.gid {
                        x
                    } else {
                        o.gid
                    }),
                    None => Some(o.gid),
                };
            }
            i = i + 1;
        }
        assert(os.subrange(0, i as int) =~= os);
        if let Some(g) = best {
            return g;
        }
        let ghost gs = self@.games;
        let mut j: usize = 0;
        while j < self.games.len()
            invariant
                j <= gs.len(),
                gs == games_view(self.games@),
                best == max_ingame_gid(gs.subrange(0, j as int)),
            decreases gs.len() - j,
        {
            let ghost t = gs.subrange(0, j + 1);
            assert(t.drop_last() =~= gs.subrange(0, j as int));
            assert(t.last() == self.games@[j as int]@);
            let g = &self.games[j];
            if !g.is_standby && g.phase == GamePhase::InGame {
                best = match best {
                    Some(x) => Some(if x >= g.gid {
                        x
                    } else {
                        g.gid
                    }),
                    None => Some(g.gid),
                };
            }
            j = j + 1;
        }
        assert(gs.subrange(0, j as int) =~= gs);
        match best {
            Some(g) => g,
            None => 0,
        }
    }

    /// The dedicated of a match went away: the match it means (see
    /// `resolve_active_match_gid`) gets its note and its humans are marked
    /// lost; then its humans (else `fallback_pid`, the local persona) are to be
    /// told to leave. `None` when no match is meant.
    pub fn signal_lost_game_server(
        &mut self,
        gid: i64,
        sessions: &Vec<BlazeSessionInfo>,
        fallback_pid: i64,
        now: u64,
    ) -> (t: Option<MatchTeardown>)
        ensures
            ({
                let g = active_match_gid(old(self)@, gid);
                let r1 = if g > 0 {
                    humans_marked(server_noted(old(self)@, g, now), g, sv(sessions@))
                } else {
                    old(self)@
                };
                &&& final(self)@ == r1
                &&& g <= 0 ==> t is None
                &&& g > 0 ==> (t matches Some(x) && x.gid == g && x.personas@ == teardown_targets(r1, g, fallback_pid)
                    && x.reason == PLAYER_REMOVED_REASON_GAME_DESTROYED)
            }),
    {
        let g = self.resolve_active_match_gid(gid);
        if g <= 0 {
            return None;
        }
        self.note_server_lost(g, now);
        self.mark_humans_lost(g, sessions);
        let humans = match self.get_game(g) {
            Some(game) => all_humans_exec(&game.players),
            None => Vec::new(),
        };
        let personas = if humans.len() > 0 {
            humans
        } else if fallback_pid > 0 {
            vec![fallback_pid]
        } else {
            Vec::new()
        };
        Some(MatchTeardown { gid: g, personas, reason: PLAYER_REMOVED_REASON_GAME_DESTROYED })
    }

    fn persona_is_lost(&mut self, pid: i64, gid: i64, sessions: &Vec<BlazeSessionInfo>) -> (b: bool)
        ensures
            (b, final(self)@) == lost_check(old(self)@, pid, gid, sv(sessions@)),
    {
        if pid <= 0 {
            return false;
        }
        match self.lost_lookup(pid) {
            Some((lost_gid, sid)) => {
                let live = persona_sessions_exec(sessions, pid);
                if sid == 0 || !contains_u64(&live, sid) {
                    self.lost_remove_pid(pid);
                    false
                } else {
                    gid <= 0 || lost_gid <= 0 || lost_gid == gid
                }
            },
            None => false,
        }
    }

    /// A client's connection poll for (gid, pid): a positive persona reads its
    /// own record (a record whose Blaze session is gone is dropped), otherwise
    /// the match's note counts.
    pub fn match_connection_status(&mut self, gid: i64, pid: i64, sessions: &Vec<BlazeSessionInfo>) -> (s:
        MatchConnectionStatus)
        ensures
            ({
                let (persona_lost, r1) = lost_check(old(self)@, pid, gid, sv(sessions@));
                let match_lost = gid > 0 && exists|k: int|
                    0 <= k < r1.server_lost.len() && r1.server_lost[k].0 == gid;
                let server_lost = if pid > 0 {
                    persona_lost
                } else {
                    match_lost
                };
                &&& final(self)@ == r1
                &&& s == MatchConnectionStatus {
                    lost: server_lost,
                    gid,
                    pid,
                    server_lost,
                    client_lost: persona_lost,
                    shell_lost: persona_lost,
                }
            }),
    {
        let persona_lost = self.persona_is_lost(pid, gid, sessions);
        let match_lost = gid > 0 && self.server_lost(gid);
        let server_lost = if pid > 0 {
            persona_lost
        } else {
            match_lost
        };
        MatchConnectionStatus {
            lost: server_lost,
            gid,
            pid,
            server_lost,
            client_lost: persona_lost,
            shell_lost: persona_lost,
        }
    }
}

/// A lost-match record is answered until it is cleared: once persona `pid`
/// (positive) is recorded lost in a positive match `gid` while holding a live
/// Blaze session, a poll for that match reads it as lost, and clearing the
/// persona ends that.
pub proof fn law_lost_persona_reads_lost(r: RegistryView, pid: i64, gid: i64, ss: Seq<SessionView>)
    requires
        pid > 0,
        gid > 0,
        persona_sessions(ss, pid).len() > 0,
        persona_sessions(ss, pid)[0] != 0,
    ensures
        lost_check(persona_marked(r, pid, gid, ss), pid, gid, ss).0,
        !lost_check(
            RegistryView {
                lost_personas: lost_without_pid(persona_marked(r, pid, gid, ss).lost_personas, pid),
                ..persona_marked(r, pid, gid, ss)
            },
            pid,
            gid,
            ss,
        ).0,
{
    let m = persona_marked(r, pid, gid, ss);
    let sid = persona_sessions(ss, pid)[0];
    let l = lost_without_pid(r.lost_personas, pid).push((pid, gid, sid));
    assert(m.lost_personas == l);
    assert(l.last() == (pid, gid, sid));
    assert(lost_of(l, pid) == Some((gid, sid)));
    assert(persona_sessions(ss, pid).contains(sid));
    lemma_lost_without_pid(l, pid);
}

/// The Blaze session that the local-game teardown of persona `pid` in
/// `gid` goes to: none unless both are positive; else the persona's first
/// session, else the match's client session (its orchestration's, else
/// `pool_client`).
pub open spec fn teardown_session(
    r: RegistryView,
    ss: Seq<SessionView>,
    gid: i64,
    pid: i64,
    pool_client: Option<u64>,
) -> Option<u64> {
    if gid <= 0 || pid <= 0 {
        None
    } else {
        match first_session(ss, pid) {
            Some(s) => Some(s),
            None => match crate::cnc::game_state::orch_of(r.orchestration, gid) {
                Some(o) => Some(o.client_session_id),
                None => pool_client,
            },
        }
    }
}

impl GameRegistry {
    /// Where a client's local-game teardown of `gid` for `pid` is sent (see
    /// `teardown_session`); `pool_client` is the pool's client session of the gid.
    pub fn client_local_game_teardown_session(
        &self,
        sessions: &Vec<BlazeSessionInfo>,
        gid: i64,
        pid: i64,
        pool_client: Option<u64>,
    ) -> (r: Option<u64>)
        ensures
            r == teardown_session(self@, sv(sessions@), gid, pid, pool_client),
    {
        if gid <= 0 || pid <= 0 {
            return None;
        }
        match blaze_session_for_persona(sessions, pid) {
            Some(s) => Some(s),
            None => self.client_session_for_gid(gid, pool_client),
        }
    }
}

} // verus!
