//! FireFrame notification envelopes and the per-session queue of pushes that
//! wait for a Blaze connection's next flush.
use vstd::prelude::*;
use crate::cnc::game_state::{game_of, orch_mesh_marked, GameRegistry, RegistryView};

verus! {

/// One Blaze notification ready to send: its FireFrame bytes, routing and log text.
#[derive(Debug, Clone)]
pub struct OutgoingPush {
    pub wire: Vec<u8>,
    pub component: u16,
    pub command: u16,
    pub tdf_body: Vec<u8>,
    pub blaze_send_label: &'static str,
    pub info_log_line: String,
}

/// A push as values.
pub struct PushView {
    pub wire: Seq<u8>,
    pub component: u16,
    pub command: u16,
    pub tdf_body: Seq<u8>,
    pub blaze_send_label: Seq<char>,
    pub info_log_line: Seq<char>,
}

impl View for OutgoingPush {
    type V = PushView;

    open spec fn view(&self) -> PushView {
        PushView {
            wire: self.wire@,
            component: self.component,
            command: self.command,
            tdf_body: self.tdf_body@,
            blaze_send_label: self.blaze_send_label@,
            info_log_line: self.info_log_line@,
        }
    }
}

pub open spec fn pushes_view(s: Seq<OutgoingPush>) -> Seq<PushView> {
    s.map_values(|p: OutgoingPush| p@)
}

/// Big-endian bytes of a 16-bit value.
pub open spec fn be16(v: u16) -> Seq<u8> {
    seq![(v / 256) as u8, (v % 256) as u8]
}

/// The 12-byte FireFrame header (payload length modulo 2^16, component,
/// command, zero, `0x2000` notification type, zero), then the payload.
pub open spec fn envelope_bytes(component: u16, command: u16, payload: Seq<u8>) -> Seq<u8> {
    be16((payload.len() % 65536) as u16) + be16(component) + be16(command) + be16(0) + be16(0x2000)
        + be16(0) + payload
}

/// A notification frame is a 12-byte header then the payload: the payload
/// length (mod 2^16) at 0, the component at 2, the command at 4, the
/// notification type `0x2000` at 8, each big-endian, zeros at 6 and 10.
pub proof fn law_envelope_layout(component: u16, command: u16, payload: Seq<u8>)
    ensures
        ({
            let b = envelope_bytes(component, command, payload);
            &&& b.len() == 12 + payload.len()
            &&& b[0] * 256 + b[1] == payload.len() % 65536
            &&& b[2] * 256 + b[3] == component
            &&& b[4] * 256 + b[5] == command
            &&& b[6] == 0 && b[7] == 0
            &&& b[8] == 0x20 && b[9] == 0
            &&& b[10] == 0 && b[11] == 0
            &&& b.subrange(12, b.len() as int) == payload
        }),
{
    let b = envelope_bytes(component, command, payload);
    let l = (payload.len() % 65536) as u16;
    assert(b =~= seq![(l / 256) as u8, (l % 256) as u8, (component / 256) as u8, (component % 256) as u8, (command
        / 256) as u8, (command % 256) as u8, 0u8, 0u8, 0x20u8, 0u8, 0u8, 0u8] + payload);
    assert(b.subrange(12, b.len() as int) =~= payload);
}

fn push_be16(out: &mut Vec<u8>, v: u16)
    ensures
        final(out)@ == old(out)@ + be16(v),
{
    out.push((v / 256) as u8);
    out.push((v % 256) as u8);
    assert(final(out)@ =~= old(out)@ + be16(v));
}

pub fn notification_envelope(component: u16, command: u16, payload: &[u8]) -> (out: Vec<u8>)
    ensures
        out@ == envelope_bytes(component, command, payload@),
{
    let mut out: Vec<u8> = Vec::new();
    let len16: u16 = (payload.len() % 65536) as u16;
    push_be16(&mut out, len16);
    push_be16(&mut out, component);
    push_be16(&mut out, command);
    push_be16(&mut out, 0);
    push_be16(&mut out, 0x2000);
    push_be16(&mut out, 0);
    let ghost head = out@;
    let mut i: usize = 0;
    while i < payload.len()
        invariant
            i <= payload@.len(),
            out@ == head + payload@.subrange(0, i as int),
        decreases payload@.len() - i,
    {
        out.push(payload[i]);
        assert(payload@.subrange(0, i + 1) =~= payload@.subrange(0, i as int).push(payload@[i as int]));
        i = i + 1;
    }
    assert(payload@.subrange(0, i as int) =~= payload@);
    assert(out@ =~= envelope_bytes(component, command, payload@));
    out
}

/// Pushes queued per Blaze session, in the order they were queued.
pub struct PendingPushes {
    queues: Vec<(u64, Vec<OutgoingPush>)>,
}

pub open spec fn queue_keys_unique(s: Seq<(u64, Vec<OutgoingPush>)>) -> bool {
    forall|i: int, j: int| 0 <= i < j < s.len() ==> #[trigger] s[i].0 != #[trigger] s[j].0
}

/// The queue of session `sid` (empty when it has none).
pub open spec fn queue_of(s: Seq<(u64, Vec<OutgoingPush>)>, sid: u64) -> Seq<PushView> {
    if exists|i: int| 0 <= i < s.len() && s[i].0 == sid {
        pushes_view(s[choose|i: int| 0 <= i < s.len() && s[i].0 == sid].1@)
    } else {
        Seq::empty()
    }
}

proof fn lemma_queue_of(s: Seq<(u64, Vec<OutgoingPush>)>, sid: u64, i: int)
    requires
        queue_keys_unique(s),
        0 <= i < s.len(),
        s[i].0 == sid,
    ensures
        queue_of(s, sid) == pushes_view(s[i].1@),
{
    let j = choose|j: int| 0 <= j < s.len() && s[j].0 == sid;
    if j != i {
        if j < i {
            assert(s[j].0 != s[i].0);
        } else {
            assert(s[i].0 != s[j].0);
        }
    }
}

impl PendingPushes {
    #[verifier::type_invariant]
    spec fn inv(self) -> bool {
        queue_keys_unique(self.queues@)
    }

    /// The queue of each session.
    pub closed spec fn queue(&self, sid: u64) -> Seq<PushView> {
        queue_of(self.queues@, sid)
    }

    /// Session `sid` has a queue entry (possibly empty).
    pub closed spec fn has_queue(&self, sid: u64) -> bool {
        exists|k: int| 0 <= k < self.queues@.len() && self.queues@[k].0 == sid
    }

    pub fn new() -> (p: Self)
        ensures
            forall|sid: u64| p.queue(sid) == Seq::<PushView>::empty(),
    {
        PendingPushes { queues: Vec::new() }
    }

    fn find(&self, sid: u64) -> (r: Option<usize>)
        ensures
            match r {
                Some(i) => i < self.queues@.len() && self.queues@[i as int].0 == sid,
                None => forall|k: int| 0 <= k < self.queues@.len() ==> self.queues@[k].0 != sid,
            },
    {
        let mut i: usize = 0;
        while i < self.queues.len()
            invariant
                i <= self.queues@.len(),
                forall|k: int| 0 <= k < i ==> self.queues@[k].0 != sid,
            decreases self.queues@.len() - i,
        {
            if self.queues[i].0 == sid {
                return Some(i);
            }
            i = i + 1;
        }
        None
    }

    /// Removes and returns the queue of session `blaze_session_id`.
    pub fn take_pending_pushes(&mut self, blaze_session_id: u64) -> (v: Vec<OutgoingPush>)
        ensures
            pushes_view(v@) == old(self).queue(blaze_session_id),
            final(self).queue(blaze_session_id) == Seq::<PushView>::empty(),
            !final(self).has_queue(blaze_session_id),
            forall|sid: u64| sid != blaze_session_id ==> final(self).queue(sid) == old(self).queue(sid),
    {
        proof {
            use_type_invariant(&*self);
        }
        match self.find(blaze_session_id) {
            Some(i) => {
                let ghost before = self.queues@;
                proof {
                    lemma_queue_of(before, blaze_session_id, i as int);
                }
                let mut qs: Vec<(u64, Vec<OutgoingPush>)> = Vec::new();
                std::mem::swap(&mut qs, &mut self.queues);
                let (_, v) = qs.remove(i);
                assert(queue_keys_unique(qs@)) by {
                    assert forall|x: int, y: int| 0 <= x < y < qs@.len() implies #[trigger] qs@[x].0
                        != #[trigger] qs@[y].0 by {
                        let xx = if x < i { x } else { x + 1 };
                        let yy = if y < i { y } else { y + 1 };
                        assert(before[xx].0 != before[yy].0);
                    }
                }
                self.queues = qs;
                assert forall|sid: u64| sid != blaze_session_id implies self.queue(sid) == old(self).queue(sid) by {
                    if exists|k: int| 0 <= k < before.len() && before[k].0 == sid {
                        let k = choose|k: int| 0 <= k < before.len() && before[k].0 == sid;
                        lemma_queue_of(before, sid, k);
                        let kk = if k < i { k } else { k - 1 };
                        assert(self.queues@[kk] == before[k]);
                        lemma_queue_of(self.queues@, sid, kk);
                    } else {
                        assert forall|k: int| 0 <= k < self.queues@.len() implies self.queues@[k].0 != sid by {
                            let kk = if k < i { k } else { k + 1 };
                            assert(self.queues@[k] == before[kk]);
                        }
                    }
                }
                assert forall|k: int| 0 <= k < self.queues@.len() implies self.queues@[k].0 != blaze_session_id by {
                    let kk = if k < i { k } else { k + 1 };
                    assert(self.queues@[k] == before[kk]);
                    assert(before[kk].0 != before[i as int].0);
                }
                v
            },
            None => {
                let v: Vec<OutgoingPush> = Vec::new();
                assert(pushes_view(v@) =~= Seq::<PushView>::empty());
                v
            },
        }
    }

    /// Drops the queue of session `blaze_session_id`.
    pub fn clear_pending_pushes(&mut self, blaze_session_id: u64)
        ensures
            final(self).queue(blaze_session_id) == Seq::<PushView>::empty(),
            forall|sid: u64| sid != blaze_session_id ==> final(self).queue(sid) == old(self).queue(sid),
    {
        let _ = self.take_pending_pushes(blaze_session_id);
    }

    /// Appends `pushes` to the queue of session `blaze_session_id`.
    pub fn enqueue_pending_pushes(&mut self, blaze_session_id: u64, pushes: Vec<OutgoingPush>)
        ensures
            final(self).queue(blaze_session_id) == old(self).queue(blaze_session_id) + pushes_view(pushes@),
            forall|sid: u64| sid != blaze_session_id ==> final(self).queue(sid) == old(self).queue(sid),
    {
        proof {
            use_type_invariant(&*self);
        }
        if pushes.len() == 0 {
            assert(pushes_view(pushes@) =~= Seq::<PushView>::empty());
            assert(old(self).queue(blaze_session_id) + pushes_view(pushes@) =~= old(self).queue(blaze_session_id));
            return;
        }
        let mut existing = self.take_pending_pushes(blaze_session_id);
        let ghost mid = self.queues@;
        let ghost first = pushes_view(existing@);
        let mut more = pushes;
        let ghost second = pushes_view(more@);
        existing.append(&mut more);
        assert(pushes_view(existing@) =~= first + second);
        proof {
            use_type_invariant(&*self);
        }
        let mut qs: Vec<(u64, Vec<OutgoingPush>)> = Vec::new();
        std::mem::swap(&mut qs, &mut self.queues);
        qs.push((blaze_session_id, existing));
        assert(queue_keys_unique(qs@)) by {
            assert forall|x: int, y: int| 0 <= x < y < qs@.len() implies #[trigger] qs@[x].0
                != #[trigger] qs@[y].0 by {
                if y < mid.len() {
                    assert(mid[x].0 != mid[y].0);
                } else {
                    assert(mid[x].0 != blaze_session_id);
                }
            }
        }
        self.queues = qs;
        proof {
            lemma_queue_of(self.queues@, blaze_session_id, (self.queues@.len() - 1) as int);
            assert forall|sid: u64| sid != blaze_session_id implies #[trigger] self.queue(sid) == queue_of(mid, sid) by {
                if exists|k: int| 0 <= k < mid.len() && mid[k].0 == sid {
                    let k = choose|k: int| 0 <= k < mid.len() && mid[k].0 == sid;
                    lemma_queue_of(mid, sid, k);
                    assert(self.queues@[k] == mid[k]);
                    lemma_queue_of(self.queues@, sid, k);
                } else {
                    assert forall|k: int| 0 <= k < self.queues@.len() implies self.queues@[k].0 != sid by {
                        if k < mid.len() {
                            assert(self.queues@[k] == mid[k]);
                        }
                    }
                }
            }
        }
    }
}

// ---------------------------------------------------------------------------
// Which GameManager notifications a join sends
// ---------------------------------------------------------------------------
/// `GSTA` of a game being set up.
pub const GSTA_INITIALIZING: i32 = 1;
/// `GSTA` of a lobby before the battle starts.
pub const GSTA_PRE_GAME: i32 = 130;

/// A Blaze GameManager notification to push; its frame is built from the
/// match state by the TDF encoder.
#[derive(Debug, Clone, Copy, PartialEq, Eq, Structural)]
pub enum GameManagerPush {
    /// NotifyGameSetup (command 0x14).
    GameSetup,
    /// NotifyGameReset (command 0x70).
    GameReset,
    /// NotifyGameStateChange (command 0x64) to `gsta`.
    GameStateChange { gsta: i32 },
    /// NotifyPlatformHostInitialized (command 0x47).
    PlatformHostInitialized,
    /// NotifyJoiningPlayerInitiateConnections (command 0x16).
    JoiningPlayerInitiateConnections,
    /// NotifyPlayerJoinCompleted (command 0x1E).
    PlayerJoinCompleted,
}

pub open spec fn push_command(p: GameManagerPush) -> u16 {
    match p {
        GameManagerPush::GameSetup => 0x14,
        GameManagerPush::GameReset => 0x70,
        GameManagerPush::GameStateChange { .. } => 0x64,
        GameManagerPush::PlatformHostInitialized => 0x47,
        GameManagerPush::JoiningPlayerInitiateConnections => 0x16,
        GameManagerPush::PlayerJoinCompleted => 0x1e,
    }
}

impl GameManagerPush {
    /// The GameManager command of the notification.
    pub fn command(self) -> (c: u16)
        ensures
            c == push_command(self),
    {
        match self {
            GameManagerPush::GameSetup => 0x14,
            GameManagerPush::GameReset => 0x70,
            GameManagerPush::GameStateChange { .. } => 0x64,
            GameManagerPush::PlatformHostInitialized => 0x47,
            GameManagerPush::JoiningPlayerInitiateConnections => 0x16,
            GameManagerPush::PlayerJoinCompleted => 0x1e,
        }
    }
}

/// After a reset the client's match is promoted (NotifyGameReset in place of
/// NotifyGameSetup) when its join setup was pushed or it has a local game.
pub open spec fn reset_promotes(r: RegistryView, gid: i64) -> bool {
    r.join_setup.contains(gid) || (game_of(r.games, gid) matches Some(g) && !g.is_standby)
}

/// The notifications a client gets after `resetDedicatedServer` of `gid`:
/// setup (or reset), state INITIALIZING, platform host initialized, then
/// join completed when its mesh is already live, else initiate connections.
pub open spec fn after_reset_pushes(r: RegistryView, gid: i64) -> Seq<GameManagerPush> {
    seq![
        if reset_promotes(r, gid) {
            GameManagerPush::GameReset
        } else {
            GameManagerPush::GameSetup
        },
        GameManagerPush::GameStateChange { gsta: GSTA_INITIALIZING },
        GameManagerPush::PlatformHostInitialized,
        if r.mesh_live.contains(gid) {
            GameManagerPush::PlayerJoinCompleted
        } else {
            GameManagerPush::JoiningPlayerInitiateConnections
        },
    ]
}

/// What those pushes leave: a promoted match's join-setup flag cleared, and a
/// live mesh marked connected in the orchestration.
pub open spec fn after_reset_state(r: RegistryView, gid: i64) -> RegistryView {
    let r1 = if reset_promotes(r, gid) {
        RegistryView { join_setup: r.join_setup.remove(gid), ..r }
    } else {
        r
    };
    if r.mesh_live.contains(gid) {
        orch_mesh_marked(r1, gid)
    } else {
        r1
    }
}

/// After a reset the client gets four notifications: NotifyGameReset when its
/// join setup was pushed or it has a live local game (else NotifyGameSetup),
/// the state change to INITIALIZING (1), platform host initialized, then join
/// completed when its mesh is already live, else initiate connections.
pub proof fn law_reset_pushes(r: RegistryView, gid: i64)
    ensures
        ({
            let s = after_reset_pushes(r, gid);
            let promoted = r.join_setup.contains(gid) || (game_of(r.games, gid) matches Some(g) && !g.is_standby);
            &&& s.len() == 4
            &&& s[0] == if promoted {
                GameManagerPush::GameReset
            } else {
                GameManagerPush::GameSetup
            }
            &&& s[1] == (GameManagerPush::GameStateChange { gsta: 1i32 })
            &&& s[2] == GameManagerPush::PlatformHostInitialized
            &&& s[3] == if r.mesh_live.contains(gid) {
                GameManagerPush::PlayerJoinCompleted
            } else {
                GameManagerPush::JoiningPlayerInitiateConnections
            }
        }),
{
}

/// The notifications for a client joining match `gid` after a reset (see
/// `after_reset_pushes` and `after_reset_state`).
pub fn pushes_client_join_after_reset(reg: &mut GameRegistry, gid: i64) -> (steps: Vec<GameManagerPush>)
    ensures
        steps@ == after_reset_pushes(old(reg)@, gid),
        final(reg)@ == after_reset_state(old(reg)@, gid),
{
    let promote = reg.blaze_join_setup_already_pushed(gid) || reg.client_local_game_active(gid);
    let skip_initiate = reg.client_mesh_already_connected(gid);
    let mut out: Vec<GameManagerPush> = Vec::new();
    out.push(
        if promote {
            GameManagerPush::GameReset
        } else {
            GameManagerPush::GameSetup
        },
    );
    if promote {
        reg.clear_blaze_join_setup_pushed(gid);
    }
    out.push(GameManagerPush::GameStateChange { gsta: GSTA_INITIALIZING });
    out.push(GameManagerPush::PlatformHostInitialized);
    if skip_initiate {
        reg.mark_orch_mesh_already_connected(gid);
        out.push(GameManagerPush::PlayerJoinCompleted);
    } else {
        out.push(GameManagerPush::JoiningPlayerInitiateConnections);
    }
    assert(out@ =~= after_reset_pushes(old(reg)@, gid));
    out
}

/// The notifications after a client joins a match: setup, then its state
/// (PRE_GAME for a lobby join that defers the mesh, else INITIALIZING with
/// platform host initialized and initiate connections).
pub open spec fn after_join_pushes(defer_mesh: bool) -> Seq<GameManagerPush> {
    if defer_mesh {
        seq![GameManagerPush::GameSetup, GameManagerPush::GameStateChange { gsta: GSTA_PRE_GAME }]
    } else {
        seq![
            GameManagerPush::GameSetup,
            GameManagerPush::GameStateChange { gsta: GSTA_INITIALIZING },
            GameManagerPush::PlatformHostInitialized,
            GameManagerPush::JoiningPlayerInitiateConnections,
        ]
    }
}

/// After a join the second notification is the state change, and it carries
/// PRE_GAME (130) exactly when the mesh is deferred (a lobby join), else
/// INITIALIZING (1); only a join that does not defer the mesh tells the client
/// it is platform host and to initiate connections.
pub proof fn law_join_state_change(defer_mesh: bool)
    ensures
        after_join_pushes(defer_mesh)[0] == GameManagerPush::GameSetup,
        after_join_pushes(defer_mesh)[1] == (GameManagerPush::GameStateChange {
            gsta: if defer_mesh {
                130i32
            } else {
                1i32
            },
        }),
        after_join_pushes(defer_mesh).len() == if defer_mesh {
            2nat
        } else {
            4nat
        },
        !defer_mesh ==> after_join_pushes(defer_mesh)[2] == GameManagerPush::PlatformHostInitialized
            && after_join_pushes(defer_mesh)[3] == GameManagerPush::JoiningPlayerInitiateConnections,
{
}

/// The notifications for a client joining match `gid` (see
/// `after_join_pushes`); the join setup of the gid is marked pushed.
pub fn pushes_after_join_game_lobby(reg: &mut GameRegistry, gid: i64, defer_mesh: bool) -> (steps: Vec<
    GameManagerPush,
>)
    ensures
        steps@ == after_join_pushes(defer_mesh),
        final(reg)@ == (RegistryView { join_setup: old(reg)@.join_setup.insert(gid), ..old(reg)@ }),
{
    let _ = reg.try_mark_blaze_join_setup_pushed(gid);
    let mut out: Vec<GameManagerPush> = Vec::new();
    out.push(GameManagerPush::GameSetup);
    if defer_mesh {
        out.push(GameManagerPush::GameStateChange { gsta: GSTA_PRE_GAME });
    } else {
        out.push(GameManagerPush::GameStateChange { gsta: GSTA_INITIALIZING });
        out.push(GameManagerPush::PlatformHostInitialized);
        out.push(GameManagerPush::JoiningPlayerInitiateConnections);
    }
    assert(out@ =~= after_join_pushes(defer_mesh));
    out
}

/// `pushes_after_join_game_lobby` without deferring the mesh.
pub fn pushes_after_join_game(reg: &mut GameRegistry, gid: i64) -> (steps: Vec<GameManagerPush>)
    ensures
        steps@ == after_join_pushes(false),
        final(reg)@ == (RegistryView { join_setup: old(reg)@.join_setup.insert(gid), ..old(reg)@ }),
{
    pushes_after_join_game_lobby(reg, gid, false)
}

} // verus!
