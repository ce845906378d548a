//! Directional MessageSystem / SimuCloud log lines and the relay ping compactor.
//!
//! The functions here decide what to log and at which level; emitting the line is
//! left to the caller's logger.
use vstd::prelude::*;
use crate::msgsystem::messages::{frame_type_label, frame_type_name};
use crate::text::{
    chars_to_string, contains_chars, contains_seq, dec, eq_lit, push_chars, push_dec, push_str,
    str_chars,
};

verus! {

broadcast use vstd::string::group_string_axioms, vstd::std_specs::hash::group_hash_axioms;

pub const SIM_TAG: &'static str = "\x1b[38;2;140;180;140m[SIM]\x1b[0m";

pub const ORCH_TAG: &'static str = "\x1b[38;2;140;180;220m[Orchestration]\x1b[0m";

/// Level a line is logged at.
#[derive(Debug, Clone, Copy, PartialEq, Eq, Structural)]
pub enum LogLevel {
    Debug,
    Info,
}

/// One line to emit.
#[derive(Debug, Clone)]
pub struct LogLine {
    pub level: LogLevel,
    pub text: String,
}

#[derive(Debug, Clone, Copy, PartialEq, Eq, Structural)]
pub enum RelayDirection {
    ClientToRts,
    RtsToClient,
    RtsToServer,
    ServerToRts,
}

pub open spec fn is_ping_spec(type_id: u16) -> bool {
    type_id == 106 || type_id == 107
}

/// Join-path control frames worth a readable line of their own.
pub open spec fn is_milestone_spec(type_id: u16) -> bool {
    type_id == 0 || type_id == 1 || type_id == 12 || type_id == 27 || type_id == 28 || type_id
        == 92 || type_id == 100 || type_id == 180 || type_id == 186 || type_id == 200 || type_id
        == 201 || type_id == 215
}

pub fn is_ping(type_id: u16) -> (b: bool)
    ensures
        b == is_ping_spec(type_id),
{
    type_id == crate::msgsystem::messages::PING_QUERY_TYPE_ID || type_id
        == crate::msgsystem::messages::PING_REPLY_TYPE_ID
}

pub fn is_handshake_milestone(type_id: u16) -> (b: bool)
    ensures
        b == is_milestone_spec(type_id),
{
    match type_id {
        0 | 1 | 12 | 27 | 28 | 92 | 100 | 180 | 186 | 200 | 201 | 215 => true,
        _ => false,
    }
}

/// Pings are never milestones.
pub proof fn law_ping_not_milestone(type_id: u16)
    ensures
        is_ping_spec(type_id) ==> !is_milestone_spec(type_id),
{
}

pub open spec fn milestone_prefix(direction: RelayDirection) -> Seq<char> {
    match direction {
        RelayDirection::ClientToRts => "[RTS] Client → hub: "@,
        RelayDirection::RtsToClient => "[RTS] Hub → client: "@,
        RelayDirection::RtsToServer => "[RTS] Hub → dedicated: "@,
        RelayDirection::ServerToRts => "[RTS] Dedicated → hub: "@,
    }
}

pub fn relay_milestone_line(direction: RelayDirection, frame_name: &str) -> (line: String)
    ensures
        line@ == milestone_prefix(direction) + frame_name@,
{
    let mut out: Vec<char> = Vec::new();
    match direction {
        RelayDirection::ClientToRts => push_str(&mut out, "[RTS] Client → hub: "),
        RelayDirection::RtsToClient => push_str(&mut out, "[RTS] Hub → client: "),
        RelayDirection::RtsToServer => push_str(&mut out, "[RTS] Hub → dedicated: "),
        RelayDirection::ServerToRts => push_str(&mut out, "[RTS] Dedicated → hub: "),
    }
    push_str(&mut out, frame_name);
    chars_to_string(&out)
}

pub open spec fn direction_arrow(direction: RelayDirection) -> Seq<char> {
    match direction {
        RelayDirection::ClientToRts => " client→hub typeId="@,
        RelayDirection::RtsToClient => " hub→client typeId="@,
        RelayDirection::RtsToServer => " hub→dedicated typeId="@,
        RelayDirection::ServerToRts => " dedicated→hub typeId="@,
    }
}

/// `[RTS] {peer} {arrow} typeId={id} len={len} ({name})` plus ` {extra}` when given.
pub open spec fn relay_debug_text(
    direction: RelayDirection,
    peer: Seq<char>,
    type_id: u16,
    payload_len: usize,
    extra: Seq<char>,
) -> Seq<char> {
    "[RTS] "@ + peer + direction_arrow(direction) + dec(type_id as nat) + " len="@ + dec(
        payload_len as nat,
    ) + " ("@ + frame_type_name(type_id)@ + ")"@ + (if extra.len() == 0 {
        Seq::<char>::empty()
    } else {
        " "@ + extra
    })
}

pub fn relay_debug_line(
    direction: RelayDirection,
    peer: &str,
    type_id: u16,
    payload_len: usize,
    extra: &str,
) -> (line: String)
    ensures
        line@ == relay_debug_text(direction, peer@, type_id, payload_len, extra@),
{
    let name = frame_type_label(type_id);
    let mut out: Vec<char> = Vec::new();
    push_str(&mut out, "[RTS] ");
    push_str(&mut out, peer);
    match direction {
        RelayDirection::ClientToRts => push_str(&mut out, " client→hub typeId="),
        RelayDirection::RtsToClient => push_str(&mut out, " hub→client typeId="),
        RelayDirection::RtsToServer => push_str(&mut out, " hub→dedicated typeId="),
        RelayDirection::ServerToRts => push_str(&mut out, " dedicated→hub typeId="),
    }
    push_dec(&mut out, type_id as u64);
    push_str(&mut out, " len=");
    push_dec(&mut out, payload_len as u64);
    push_str(&mut out, " (");
    push_str(&mut out, name);
    push_str(&mut out, ")");
    let extra_chars = str_chars(extra);
    if extra_chars.len() > 0 {
        push_str(&mut out, " ");
        push_chars(&mut out, &extra_chars);
    }
    assert(out@ =~= relay_debug_text(direction, peer@, type_id, payload_len, extra@));
    chars_to_string(&out)
}

pub open spec fn direction_code(direction: RelayDirection) -> Seq<char> {
    match direction {
        RelayDirection::ClientToRts => "C2R"@,
        RelayDirection::RtsToClient => "R2C"@,
        RelayDirection::RtsToServer => "R2S"@,
        RelayDirection::ServerToRts => "S2R"@,
    }
}

/// Compaction key `RTS|{dir}|{type_id}`.
pub open spec fn compact_key_text(direction: RelayDirection, type_id: u16) -> Seq<char> {
    "RTS|"@ + direction_code(direction) + "|"@ + dec(type_id as nat)
}

pub fn compact_key(direction: RelayDirection, type_id: u16) -> (key: String)
    ensures
        key@ == compact_key_text(direction, type_id),
{
    let mut out: Vec<char> = Vec::new();
    push_str(&mut out, "RTS|");
    match direction {
        RelayDirection::ClientToRts => push_str(&mut out, "C2R"),
        RelayDirection::RtsToClient => push_str(&mut out, "R2C"),
        RelayDirection::RtsToServer => push_str(&mut out, "R2S"),
        RelayDirection::ServerToRts => push_str(&mut out, "S2R"),
    }
    push_str(&mut out, "|");
    push_dec(&mut out, type_id as u64);
    assert(out@ =~= compact_key_text(direction, type_id));
    chars_to_string(&out)
}

/// Text of a compacted row: the line, with ` x{count}` once it repeats.
pub open spec fn compact_text(text: Seq<char>, count: u32) -> Seq<char> {
    if count <= 1 {
        text
    } else {
        text + " x"@ + dec(count as nat)
    }
}

pub fn compact_upsert_text(text: &str, count: u32) -> (r: String)
    ensures
        r@ == compact_text(text@, count),
{
    let mut out = str_chars(text);
    if count > 1 {
        push_str(&mut out, " x");
        push_dec(&mut out, count as u64);
    }
    chars_to_string(&out)
}

pub open spec fn direction_index(direction: RelayDirection) -> u32 {
    match direction {
        RelayDirection::ClientToRts => 0,
        RelayDirection::RtsToClient => 1,
        RelayDirection::RtsToServer => 2,
        RelayDirection::ServerToRts => 3,
    }
}

/// Map key of a compaction key: one per direction and frame type.
pub open spec fn ping_key(direction: RelayDirection, type_id: u16) -> u32 {
    (direction_index(direction) * 65536 + type_id) as u32
}

fn ping_key_exec(direction: RelayDirection, type_id: u16) -> (k: u32)
    ensures
        k == ping_key(direction, type_id),
{
    let d: u32 = match direction {
        RelayDirection::ClientToRts => 0,
        RelayDirection::RtsToClient => 1,
        RelayDirection::RtsToServer => 2,
        RelayDirection::ServerToRts => 3,
    };
    d * 65536 + type_id as u32
}

/// Distinct compaction keys get distinct map keys.
pub proof fn law_ping_key_injective(d1: RelayDirection, t1: u16, d2: RelayDirection, t2: u16)
    ensures
        ping_key(d1, t1) == ping_key(d2, t2) <==> compact_key_text(d1, t1) == compact_key_text(
            d2,
            t2,
        ),
{
    if ping_key(d1, t1) == ping_key(d2, t2) {
        assert(d1 == d2 && t1 == t2);
    }
    if compact_key_text(d1, t1) == compact_key_text(d2, t2) {
        lemma_compact_key_parts(d1, t1, d2, t2);
    }
}

proof fn lemma_compact_key_parts(d1: RelayDirection, t1: u16, d2: RelayDirection, t2: u16)
    requires
        compact_key_text(d1, t1) == compact_key_text(d2, t2),
    ensures
        d1 == d2,
        t1 == t2,
{
    reveal_strlit("RTS|");
    reveal_strlit("|");
    reveal_strlit("C2R");
    reveal_strlit("R2C");
    reveal_strlit("R2S");
    reveal_strlit("S2R");
    let a = compact_key_text(d1, t1);
    let b = compact_key_text(d2, t2);
    assert(a.subrange(0, 7) == b.subrange(0, 7));
    assert(a.subrange(4, 7) =~= direction_code(d1));
    assert(b.subrange(4, 7) =~= direction_code(d2));
    assert(a.subrange(8, a.len() as int) =~= dec(t1 as nat));
    assert(b.subrange(8, b.len() as int) =~= dec(t2 as nat));
    crate::text::lemma_dec_injective(t1 as nat, t2 as nat);
    let c1 = direction_code(d1);
    let c2 = direction_code(d2);
    assert(c1[0] == c2[0] && c1[2] == c2[2]);
    match d1 {
        RelayDirection::ClientToRts => assert(c1[0] == 'C' && c1[2] == 'R'),
        RelayDirection::RtsToClient => assert(c1[0] == 'R' && c1[2] == 'C'),
        RelayDirection::RtsToServer => assert(c1[0] == 'R' && c1[2] == 'S'),
        RelayDirection::ServerToRts => assert(c1[0] == 'S' && c1[2] == 'R'),
    }
    match d2 {
        RelayDirection::ClientToRts => assert(c2[0] == 'C' && c2[2] == 'R'),
        RelayDirection::RtsToClient => assert(c2[0] == 'R' && c2[2] == 'C'),
        RelayDirection::RtsToServer => assert(c2[0] == 'R' && c2[2] == 'S'),
        RelayDirection::ServerToRts => assert(c2[0] == 'S' && c2[2] == 'R'),
    }
}

/// Repeat counts of relay ping lines, per direction and frame type.
pub struct RelayLogCompactor {
    ping_counts: std::collections::HashMap<u32, u32>,
}

impl View for RelayLogCompactor {
    type V = Map<u32, u32>;

    closed spec fn view(&self) -> Map<u32, u32> {
        self.ping_counts@
    }
}

impl RelayLogCompactor {
    pub fn new() -> (c: Self)
        ensures
            c@ == Map::<u32, u32>::empty(),
    {
        RelayLogCompactor { ping_counts: std::collections::HashMap::new() }
    }

    /// Count one more ping line for this direction and frame type; the new count
    /// (saturating).
    pub fn note_ping(&mut self, direction: RelayDirection, type_id: u16) -> (count: u32)
        ensures
            count == (if old(self)@.contains_key(ping_key(direction, type_id)) {
                if old(self)@[ping_key(direction, type_id)] == u32::MAX {
                    u32::MAX
                } else {
                    (old(self)@[ping_key(direction, type_id)] + 1) as u32
                }
            } else {
                1
            }),
            final(self)@ == old(self)@.insert(ping_key(direction, type_id), count),
    {
        let k = ping_key_exec(direction, type_id);
        let next = match self.ping_counts.get(&k) {
            Some(c) => if *c == u32::MAX {
                u32::MAX
            } else {
                *c + 1
            },
            None => 1,
        };
        self.ping_counts.insert(k, next);
        next
    }

    /// Forget every count.
    pub fn clear(&mut self)
        ensures
            final(self)@ == Map::<u32, u32>::empty(),
    {
        self.ping_counts.clear();
    }
}

/// Reset the relay ping counts (every milestone starts a fresh run).
pub fn flush_relay_log_compactor(compactor: &mut RelayLogCompactor)
    ensures
        final(compactor)@ == Map::<u32, u32>::empty(),
{
    compactor.clear();
}

/// What one relayed frame produces: the debug line, the compacted ping row (key
/// and text) to upsert when debug logging is on, and info lines.
#[derive(Debug, Clone)]
pub struct RelayLogOutput {
    pub debug_line: String,
    pub compact_upsert: Option<(String, String)>,
    pub info_lines: Vec<String>,
}

/// What logging one relayed frame leaves: the compactor goes from `before` to
/// `after`, and `out` is what is written (see `log_relay`).
pub open spec fn relay_logged(
    before: Map<u32, u32>,
    after: Map<u32, u32>,
    direction: RelayDirection,
    peer: Seq<char>,
    type_id: u16,
    payload_len: usize,
    extra: Seq<char>,
    out: RelayLogOutput,
) -> bool {
    &&& out.debug_line@ == relay_debug_text(direction, peer, type_id, payload_len, extra)
    &&& is_ping_spec(type_id) ==> {
        let key = ping_key(direction, type_id);
        &&& after.contains_key(key)
        &&& after == before.insert(key, after[key])
        &&& after[key] == (if before.contains_key(key) {
            if before[key] == u32::MAX {
                u32::MAX
            } else {
                (before[key] + 1) as u32
            }
        } else {
            1
        })
        &&& out.compact_upsert matches Some((k, t)) && k@ == compact_key_text(direction, type_id) && t@
            == compact_text(out.debug_line@, after[key])
        &&& out.info_lines@.len() == 0
    }
    &&& !is_ping_spec(type_id) && is_milestone_spec(type_id) ==> {
        &&& after == Map::<u32, u32>::empty()
        &&& out.compact_upsert is None
        &&& out.info_lines@.len() >= 1
        &&& out.info_lines@[0]@ == milestone_prefix(direction) + frame_type_name(type_id)@
        &&& out.info_lines@.len() == (if type_id == 12 && extra.len() >= 8 && extra.subrange(0, 8)
            == "payload="@ {
            2int
        } else {
            1int
        })
    }
    &&& !is_ping_spec(type_id) && !is_milestone_spec(type_id) ==> {
        &&& after == before
        &&& out.compact_upsert is None
        &&& out.info_lines@.len() == 0
    }
}

/// Decide the log output for one relayed frame. Pings are counted under their
/// direction key and shown as one compacted row; milestones reset the counts and
/// get a readable info line (AllowInputChange also shows its payload).
pub fn log_relay(
    compactor: &mut RelayLogCompactor,
    direction: RelayDirection,
    peer: &str,
    type_id: u16,
    payload_len: usize,
    extra: &str,
) -> (out: RelayLogOutput)
    ensures
        relay_logged(old(compactor)@, final(compactor)@, direction, peer@, type_id, payload_len, extra@, out),
{
    let frame_name = frame_type_label(type_id);
    let debug_line = relay_debug_line(direction, peer, type_id, payload_len, extra);
    if is_ping(type_id) {
        let key = compact_key(direction, type_id);
        let count = compactor.note_ping(direction, type_id);
        let text = compact_upsert_text(debug_line.as_str(), count);
        return RelayLogOutput {
            debug_line,
            compact_upsert: Some((key, text)),
            info_lines: Vec::new(),
        };
    }
    let mut info_lines: Vec<String> = Vec::new();
    if is_handshake_milestone(type_id) {
        compactor.clear();
        info_lines.push(relay_milestone_line(direction, frame_name));
        let extra_chars = str_chars(extra);
        let prefix = str_chars("payload=");
        proof {
            reveal_strlit("payload=");
        }
        if type_id == crate::msgsystem::messages::ALLOW_INPUT_CHANGE_TYPE_ID
            && crate::text::starts_with(&extra_chars, &prefix) {
            let mut line: Vec<char> = Vec::new();
            push_str(&mut line, "[RTS] AllowInputChange wire ");
            push_chars(&mut line, &extra_chars);
            info_lines.push(chars_to_string(&line));
        }
    }
    RelayLogOutput { debug_line, compact_upsert: None, info_lines }
}

/// `[RTS] {peer} {detail}`: info when the detail mentions a connection or a
/// splice (`↔`), debug otherwise.
pub fn log_rts_system(peer: &str, detail: &str) -> (line: LogLine)
    ensures
        line.text@ == "[RTS] "@ + peer@ + " "@ + detail@,
        line.level == (if contains_seq(detail@, "connected"@) || detail@.contains('↔') {
            LogLevel::Info
        } else {
            LogLevel::Debug
        }),
{
    let d = str_chars(detail);
    let connected = str_chars("connected");
    let mut splice = false;
    let mut i: usize = 0;
    while i < d.len()
        invariant
            i <= d@.len(),
            splice == exists|j: int| 0 <= j < i && d@[j] == '↔',
        decreases d@.len() - i,
    {
        if d[i] == '↔' {
            splice = true;
        }
        i = i + 1;
    }
    let level = if contains_chars(&d, &connected) || splice {
        LogLevel::Info
    } else {
        LogLevel::Debug
    };
    let mut out: Vec<char> = Vec::new();
    push_str(&mut out, "[RTS] ");
    push_str(&mut out, peer);
    push_str(&mut out, " ");
    push_chars(&mut out, &d);
    LogLine { level, text: chars_to_string(&out) }
}

fn tagged_line(tag: &str, detail: &str, level: LogLevel) -> (line: LogLine)
    ensures
        line.text@ == tag@ + " "@ + detail@,
        line.level == level,
{
    let mut out: Vec<char> = Vec::new();
    push_str(&mut out, tag);
    push_str(&mut out, " ");
    push_str(&mut out, detail);
    LogLine { level, text: chars_to_string(&out) }
}

/// SimuCloud milestone: `{SIM_TAG} {detail}` at info level.
pub fn log_sim_milestone(detail: &str) -> (line: LogLine)
    ensures
        line.text@ == SIM_TAG@ + " "@ + detail@,
        line.level == LogLevel::Info,
{
    tagged_line(SIM_TAG, detail, LogLevel::Info)
}

/// SimuCloud detail: `{SIM_TAG} {detail}` at debug level.
pub fn log_sim_debug(detail: &str) -> (line: LogLine)
    ensures
        line.text@ == SIM_TAG@ + " "@ + detail@,
        line.level == LogLevel::Debug,
{
    tagged_line(SIM_TAG, detail, LogLevel::Debug)
}

/// Orchestration milestone: `{ORCH_TAG} {detail}` at info level.
pub fn log_orch_milestone(detail: &str) -> (line: LogLine)
    ensures
        line.text@ == ORCH_TAG@ + " "@ + detail@,
        line.level == LogLevel::Info,
{
    tagged_line(ORCH_TAG, detail, LogLevel::Info)
}

/// Orchestration detail: `{ORCH_TAG} {detail}` at debug level.
pub fn log_orch_debug(detail: &str) -> (line: LogLine)
    ensures
        line.text@ == ORCH_TAG@ + " "@ + detail@,
        line.level == LogLevel::Debug,
{
    tagged_line(ORCH_TAG, detail, LogLevel::Debug)
}

/// A SimuCloud debug line (older name).
pub fn log_sim(detail: &str) -> (line: LogLine)
    ensures
        line.text@ == SIM_TAG@ + " "@ + detail@,
        line.level == LogLevel::Debug,
{
    log_sim_debug(detail)
}

/// `log_relay` for a frame from a client to the hub.
pub fn log_client_to_rts(compactor: &mut RelayLogCompactor, peer: &str, type_id: u16, payload_len: usize, extra: &str) -> (out: RelayLogOutput)
    ensures
        relay_logged(old(compactor)@, final(compactor)@, RelayDirection::ClientToRts, peer@, type_id, payload_len, extra@, out),
{
    log_relay(compactor, RelayDirection::ClientToRts, peer, type_id, payload_len, extra)
}

/// `log_relay` for a frame from the hub to a client.
pub fn log_rts_to_client(compactor: &mut RelayLogCompactor, peer: &str, type_id: u16, payload_len: usize, extra: &str) -> (out: RelayLogOutput)
    ensures
        relay_logged(old(compactor)@, final(compactor)@, RelayDirection::RtsToClient, peer@, type_id, payload_len, extra@, out),
{
    log_relay(compactor, RelayDirection::RtsToClient, peer, type_id, payload_len, extra)
}

/// `log_relay` for a frame from the hub to a ServerHost.
pub fn log_rts_to_server(compactor: &mut RelayLogCompactor, peer: &str, type_id: u16, payload_len: usize, extra: &str) -> (out: RelayLogOutput)
    ensures
        relay_logged(old(compactor)@, final(compactor)@, RelayDirection::RtsToServer, peer@, type_id, payload_len, extra@, out),
{
    log_relay(compactor, RelayDirection::RtsToServer, peer, type_id, payload_len, extra)
}

/// `log_relay` for a frame from a ServerHost to the hub.
pub fn log_server_to_rts(compactor: &mut RelayLogCompactor, peer: &str, type_id: u16, payload_len: usize, extra: &str) -> (out: RelayLogOutput)
    ensures
        relay_logged(old(compactor)@, final(compactor)@, RelayDirection::ServerToRts, peer@, type_id, payload_len, extra@, out),
{
    log_relay(compactor, RelayDirection::ServerToRts, peer, type_id, payload_len, extra)
}

} // verus!
