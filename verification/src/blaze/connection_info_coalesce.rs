//! Coalescing of repeated Blaze traffic log lines into compact rows.
//!
//! Keys omit volatile fields (e.g. MsgNum) so consecutive heartbeats share one row;
//! every call returns the row to upsert (key and text).
use vstd::prelude::*;
use crate::cnc::dedicated_pool::{normalized_wire_line, rewrite_server_tags};
use crate::text::{chars_to_string, contains_chars, contains_seq, dec, push_dec, push_str, str_chars};

verus! {

broadcast use vstd::string::group_string_axioms;

/// One compact log row to insert or replace.
#[derive(Debug, Clone)]
pub struct CompactUpsert {
    pub key: String,
    pub text: String,
}

/// Row text: the line, with a grey ` x{count}` once it repeats.
pub open spec fn compact_row_text(line: Seq<char>, count: u32) -> Seq<char> {
    if count <= 1 {
        line
    } else {
        line + " \x1b[38;2;140;140;140mx"@ + dec(count as nat) + "\x1b[0m"@
    }
}

fn emit_compact(upsert_key: String, line: &str, count: u32) -> (u: CompactUpsert)
    ensures
        u.key@ == upsert_key@,
        u.text@ == compact_row_text(line@, count),
{
    let mut out = str_chars(line);
    if count > 1 {
        push_str(&mut out, " \x1b[38;2;140;140;140mx");
        push_dec(&mut out, count as u64);
        push_str(&mut out, "\x1b[0m");
    }
    CompactUpsert { key: upsert_key, text: chars_to_string(&out) }
}

fn normalize(session: Option<u64>, line: String, peer_is_server: bool) -> (r: String)
    ensures
        r@ == normalized_wire_line(session is Some && peer_is_server, line@),
{
    if session.is_some() && peer_is_server {
        rewrite_server_tags(line.as_str())
    } else {
        line
    }
}

pub open spec fn sat_inc32(c: u32) -> u32 {
    if c == u32::MAX {
        u32::MAX
    } else {
        (c + 1) as u32
    }
}

pub open spec fn sat_inc64(c: u64) -> u64 {
    if c == u64::MAX {
        u64::MAX
    } else {
        (c + 1) as u64
    }
}

/// Only heartbeat-style keys stack.
pub open spec fn coalesceable(key: Seq<char>) -> bool {
    contains_seq(key, "|KA"@) || contains_seq(key, "|IDLEHB"@)
}

/// Coalesces repeated identical heartbeat lines; other lines each get a row.
pub struct CoalescedBlazeInfo {
    scope: String,
    blaze_session_id: Option<u64>,
    key: Option<String>,
    count: u32,
    line: String,
    seq: u64,
}

impl CoalescedBlazeInfo {
    /// An idle coalescer holds no run.
    #[verifier::type_invariant]
    spec fn wf(self) -> bool {
        self.count == 0 ==> self.key is None && self.line@ == Seq::<char>::empty()
    }

    pub closed spec fn scope_of(&self) -> Seq<char> {
        self.scope@
    }

    pub closed spec fn session_of(&self) -> Option<u64> {
        self.blaze_session_id
    }

    /// Key of the heartbeat run being stacked, if any.
    pub closed spec fn run_key(&self) -> Option<Seq<char>> {
        match self.key {
            Some(k) => Some(k@),
            None => None,
        }
    }

    pub closed spec fn run_count(&self) -> u32 {
        self.count
    }

    pub closed spec fn run_line(&self) -> Seq<char> {
        self.line@
    }

    /// Rows given to non-stacking lines so far (saturating).
    pub closed spec fn seq_of(&self) -> u64 {
        self.seq
    }

    pub fn new() -> (c: Self)
        ensures
            c.scope_of() == "GLOBAL"@,
            c.session_of() is None,
            c.run_key() is None,
            c.run_count() == 0,
            c.run_line() == Seq::<char>::empty(),
            c.seq_of() == 0,
    {
        Self::new_scoped("GLOBAL")
    }

    pub fn new_scoped(scope: &str) -> (c: Self)
        ensures
            c.scope_of() == scope@,
            c.session_of() is None,
            c.run_key() is None,
            c.run_count() == 0,
            c.run_line() == Seq::<char>::empty(),
            c.seq_of() == 0,
    {
        let s = str_chars(scope);
        CoalescedBlazeInfo {
            scope: chars_to_string(&s),
            blaze_session_id: None,
            key: None,
            count: 0,
            line: String::new(),
            seq: 0,
        }
    }

    pub fn set_blaze_session_id(&mut self, blaze_session_id: Option<u64>)
        ensures
            final(self).session_of() == blaze_session_id,
            final(self).scope_of() == old(self).scope_of(),
            final(self).run_key() == old(self).run_key(),
            final(self).run_count() == old(self).run_count(),
            final(self).run_line() == old(self).run_line(),
            final(self).seq_of() == old(self).seq_of(),
    {
        proof {
            use_type_invariant(&*self);
        }
        self.blaze_session_id = blaze_session_id;
    }

    /// Log one line under `key`. `peer_is_server` says whether the bound Blaze
    /// session is a dedicated server (its tags are then rewritten).
    pub fn log(&mut self, key: &str, line: String, peer_is_server: bool) -> (u: CompactUpsert)
        ensures
            final(self).scope_of() == old(self).scope_of(),
            final(self).session_of() == old(self).session_of(),
            ({
                let shown = normalized_wire_line(
                    old(self).session_of() is Some && peer_is_server,
                    line@,
                );
                if !coalesceable(key@) {
                    &&& final(self).run_key() is None
                    &&& final(self).run_count() == 0
                    &&& final(self).run_line() == Seq::<char>::empty()
                    &&& final(self).seq_of() == sat_inc64(old(self).seq_of())
                    &&& u.key@ == old(self).scope_of() + "|"@ + key@ + "|"@ + dec(
                        final(self).seq_of() as nat,
                    )
                    &&& u.text@ == shown
                } else if old(self).run_key() == Some(key@) {
                    &&& final(self).run_key() == Some(key@)
                    &&& final(self).run_count() == sat_inc32(old(self).run_count())
                    &&& final(self).run_line() == shown
                    &&& final(self).seq_of() == old(self).seq_of()
                    &&& u.key@ == old(self).scope_of() + "|"@ + key@
                    &&& u.text@ == compact_row_text(shown, final(self).run_count())
                } else {
                    &&& final(self).run_key() == Some(key@)
                    &&& final(self).run_count() == 1
                    &&& final(self).run_line() == shown
                    &&& final(self).seq_of() == old(self).seq_of()
                    &&& u.key@ == old(self).scope_of() + "|"@ + key@
                    &&& u.text@ == shown
                }
            }),
    {
        proof {
            use_type_invariant(&*self);
        }
        let line = normalize(self.blaze_session_id, line, peer_is_server);
        let k = str_chars(key);
        let ka = str_chars("|KA");
        let idle = str_chars("|IDLEHB");
        let is_coalesceable = contains_chars(&k, &ka) || contains_chars(&k, &idle);
        if !is_coalesceable {
            self.flush();
            self.seq = if self.seq == u64::MAX {
                u64::MAX
            } else {
                self.seq + 1
            };
            let mut rk = str_chars(self.scope.as_str());
            push_str(&mut rk, "|");
            push_str(&mut rk, key);
            push_str(&mut rk, "|");
            push_dec(&mut rk, self.seq);
            return emit_compact(chars_to_string(&rk), line.as_str(), 1);
        }
        let same = match &self.key {
            Some(existing) => {
                let e = str_chars(existing.as_str());
                crate::text::chars_eq(&e, &k)
            },
            None => false,
        };
        let mut rk = str_chars(self.scope.as_str());
        push_str(&mut rk, "|");
        push_str(&mut rk, key);
        let row_key = chars_to_string(&rk);
        if same {
            self.count = if self.count == u32::MAX {
                u32::MAX
            } else {
                self.count + 1
            };
            self.line = line;
            emit_compact(row_key, self.line.as_str(), self.count)
        } else {
            self.flush();
            self.count = 1;
            self.key = Some(chars_to_string(&k));
            self.line = line;
            emit_compact(row_key, self.line.as_str(), self.count)
        }
    }

    /// End the current heartbeat run.
    pub fn flush(&mut self)
        ensures
            final(self).scope_of() == old(self).scope_of(),
            final(self).session_of() == old(self).session_of(),
            final(self).seq_of() == old(self).seq_of(),
            final(self).run_key() is None,
            final(self).run_count() == 0,
            final(self).run_line() == Seq::<char>::empty(),
    {
        proof {
            use_type_invariant(&*self);
        }
        if self.count == 0 {
            return;
        }
        self.key = None;
        self.line = String::new();
        self.count = 0;
    }
}

/// Cumulative ping request / reply rows for one Blaze connection.
pub struct PingBurstCoalescer {
    scope: String,
    blaze_session_id: Option<u64>,
    req_count: u32,
    req_line: String,
    rep_count: u32,
    rep_line: String,
}

impl PingBurstCoalescer {
    pub closed spec fn scope_of(&self) -> Seq<char> {
        self.scope@
    }

    pub closed spec fn session_of(&self) -> Option<u64> {
        self.blaze_session_id
    }

    pub closed spec fn req_count_of(&self) -> u32 {
        self.req_count
    }

    pub closed spec fn rep_count_of(&self) -> u32 {
        self.rep_count
    }

    pub closed spec fn req_line_of(&self) -> Seq<char> {
        self.req_line@
    }

    pub closed spec fn rep_line_of(&self) -> Seq<char> {
        self.rep_line@
    }

    pub fn new() -> (c: Self)
        ensures
            c.scope_of() == "GLOBAL"@,
            c.session_of() is None,
            c.req_count_of() == 0,
            c.rep_count_of() == 0,
    {
        Self::new_scoped("GLOBAL")
    }

    pub fn new_scoped(scope: &str) -> (c: Self)
        ensures
            c.scope_of() == scope@,
            c.session_of() is None,
            c.req_count_of() == 0,
            c.rep_count_of() == 0,
            c.req_line_of() == Seq::<char>::empty(),
            c.rep_line_of() == Seq::<char>::empty(),
    {
        let s = str_chars(scope);
        PingBurstCoalescer {
            scope: chars_to_string(&s),
            blaze_session_id: None,
            req_count: 0,
            req_line: String::new(),
            rep_count: 0,
            rep_line: String::new(),
        }
    }

    pub fn set_blaze_session_id(&mut self, blaze_session_id: Option<u64>)
        ensures
            final(self).session_of() == blaze_session_id,
            final(self).scope_of() == old(self).scope_of(),
            final(self).req_count_of() == old(self).req_count_of(),
            final(self).rep_count_of() == old(self).rep_count_of(),
            final(self).req_line_of() == old(self).req_line_of(),
            final(self).rep_line_of() == old(self).rep_line_of(),
    {
        self.blaze_session_id = blaze_session_id;
    }

    /// One more ping request: the cumulative `{scope}|PING_REQ` row.
    pub fn log_request(&mut self, line: String, peer_is_server: bool) -> (u: CompactUpsert)
        ensures
            final(self).scope_of() == old(self).scope_of(),
            final(self).session_of() == old(self).session_of(),
            final(self).req_count_of() == sat_inc32(old(self).req_count_of()),
            final(self).rep_count_of() == old(self).rep_count_of(),
            final(self).req_line_of() == normalized_wire_line(
                old(self).session_of() is Some && peer_is_server,
                line@,
            ),
            final(self).rep_line_of() == old(self).rep_line_of(),
            u.key@ == old(self).scope_of() + "|PING_REQ"@,
            u.text@ == compact_row_text(final(self).req_line_of(), final(self).req_count_of()),
    {
        let line = normalize(self.blaze_session_id, line, peer_is_server);
        self.req_count = if self.req_count == u32::MAX {
            u32::MAX
        } else {
            self.req_count + 1
        };
        self.req_line = line;
        let mut rk = str_chars(self.scope.as_str());
        push_str(&mut rk, "|PING_REQ");
        emit_compact(chars_to_string(&rk), self.req_line.as_str(), self.req_count)
    }

    /// One more ping reply: the cumulative `{scope}|PING_REP` row.
    pub fn log_reply(&mut self, line: String, peer_is_server: bool) -> (u: CompactUpsert)
        ensures
            final(self).scope_of() == old(self).scope_of(),
            final(self).session_of() == old(self).session_of(),
            final(self).rep_count_of() == sat_inc32(old(self).rep_count_of()),
            final(self).req_count_of() == old(self).req_count_of(),
            final(self).rep_line_of() == normalized_wire_line(
                old(self).session_of() is Some && peer_is_server,
                line@,
            ),
            final(self).req_line_of() == old(self).req_line_of(),
            u.key@ == old(self).scope_of() + "|PING_REP"@,
            u.text@ == compact_row_text(final(self).rep_line_of(), final(self).rep_count_of()),
    {
        let line = normalize(self.blaze_session_id, line, peer_is_server);
        self.rep_count = if self.rep_count == u32::MAX {
            u32::MAX
        } else {
            self.rep_count + 1
        };
        self.rep_line = line;
        let mut rk = str_chars(self.scope.as_str());
        push_str(&mut rk, "|PING_REP");
        emit_compact(chars_to_string(&rk), self.rep_line.as_str(), self.rep_count)
    }

    /// Counters are cumulative per connection: flushing changes nothing.
    pub fn flush(&mut self)
        ensures
            final(self).scope_of() == old(self).scope_of(),
            final(self).session_of() == old(self).session_of(),
            final(self).req_count_of() == old(self).req_count_of(),
            final(self).rep_count_of() == old(self).rep_count_of(),
            final(self).req_line_of() == old(self).req_line_of(),
            final(self).rep_line_of() == old(self).rep_line_of(),
    {
    }
}

// ---------------------------------------------------------------------------
// Row keys
// ---------------------------------------------------------------------------
pub fn key_c2b(component: u16, command: u16, total_size: usize, msg_type: &str) -> (k: String)
    ensures
        k@ == "C2B|"@ + dec(component as nat) + "|"@ + dec(command as nat) + "|"@ + dec(
            total_size as nat,
        ) + "|"@ + msg_type@,
{
    let mut o: Vec<char> = Vec::new();
    push_str(&mut o, "C2B|");
    push_dec(&mut o, component as u64);
    push_str(&mut o, "|");
    push_dec(&mut o, command as u64);
    push_str(&mut o, "|");
    push_dec(&mut o, total_size as u64);
    push_str(&mut o, "|");
    push_str(&mut o, msg_type);
    chars_to_string(&o)
}

pub fn key_b2c_reply(component: u16, command: u16, wire_size: usize) -> (k: String)
    ensures
        k@ == "B2C|"@ + dec(component as nat) + "|"@ + dec(command as nat) + "|R|"@ + dec(
            wire_size as nat,
        ),
{
    let mut o: Vec<char> = Vec::new();
    push_str(&mut o, "B2C|");
    push_dec(&mut o, component as u64);
    push_str(&mut o, "|");
    push_dec(&mut o, command as u64);
    push_str(&mut o, "|R|");
    push_dec(&mut o, wire_size as u64);
    chars_to_string(&o)
}

pub fn key_b2c_notif(component: u16, command: u16, payload_len: usize) -> (k: String)
    ensures
        k@ == "B2C|"@ + dec(component as nat) + "|"@ + dec(command as nat) + "|N|"@ + dec(
            payload_len as nat,
        ),
{
    let mut o: Vec<char> = Vec::new();
    push_str(&mut o, "B2C|");
    push_dec(&mut o, component as u64);
    push_str(&mut o, "|");
    push_dec(&mut o, command as u64);
    push_str(&mut o, "|N|");
    push_dec(&mut o, payload_len as u64);
    chars_to_string(&o)
}

/// Idle 15s heartbeat notification (stacks while its payload size is stable).
pub fn key_b2c_idle_user_session_ex(payload_len: usize) -> (k: String)
    ensures
        k@ == "B2C|30722|1|N|"@ + dec(payload_len as nat) + "|IDLEHB"@,
{
    let mut o: Vec<char> = Vec::new();
    push_str(&mut o, "B2C|30722|1|N|");
    push_dec(&mut o, payload_len as u64);
    push_str(&mut o, "|IDLEHB");
    chars_to_string(&o)
}

/// FireFrame keepalive (zero component).
pub fn key_c2b_keepalive(total_size: usize, msg_type: &str) -> (k: String)
    ensures
        k@ == "C2B|0|0|"@ + dec(total_size as nat) + "|"@ + msg_type@,
{
    let mut o: Vec<char> = Vec::new();
    push_str(&mut o, "C2B|0|0|");
    push_dec(&mut o, total_size as u64);
    push_str(&mut o, "|");
    push_str(&mut o, msg_type);
    chars_to_string(&o)
}

pub fn key_b2c_keepalive_reply() -> (k: String)
    ensures
        k@ == "B2C|0|0|R|16|KA"@,
{
    let o = str_chars("B2C|0|0|R|16|KA");
    chars_to_string(&o)
}

pub fn key_b2c_blaze_inject(
    component: u16,
    command: u16,
    msg_num: u32,
    msg_ty: &str,
    wire_len: usize,
) -> (k: String)
    ensures
        k@ == "B2C|INJECT|"@ + dec(component as nat) + "|"@ + dec(command as nat) + "|"@ + msg_ty@
            + "|"@ + dec(msg_num as nat) + "|"@ + dec(wire_len as nat),
{
    let mut o: Vec<char> = Vec::new();
    push_str(&mut o, "B2C|INJECT|");
    push_dec(&mut o, component as u64);
    push_str(&mut o, "|");
    push_dec(&mut o, command as u64);
    push_str(&mut o, "|");
    push_str(&mut o, msg_ty);
    push_str(&mut o, "|");
    push_dec(&mut o, msg_num as u64);
    push_str(&mut o, "|");
    push_dec(&mut o, wire_len as u64);
    chars_to_string(&o)
}

pub fn key_fire_c2b(component: u16, command: u16, total: usize) -> (k: String)
    ensures
        k@ == "FR2B|"@ + dec(component as nat) + "|"@ + dec(command as nat) + "|"@ + dec(
            total as nat,
        ),
{
    let mut o: Vec<char> = Vec::new();
    push_str(&mut o, "FR2B|");
    push_dec(&mut o, component as u64);
    push_str(&mut o, "|");
    push_dec(&mut o, command as u64);
    push_str(&mut o, "|");
    push_dec(&mut o, total as u64);
    chars_to_string(&o)
}

pub fn key_fire_b2c(component: u16, command: u16, response_len: usize) -> (k: String)
    ensures
        k@ == "B2FR|"@ + dec(component as nat) + "|"@ + dec(command as nat) + "|"@ + dec(
            response_len as nat,
        ),
{
    let mut o: Vec<char> = Vec::new();
    push_str(&mut o, "B2FR|");
    push_dec(&mut o, component as u64);
    push_str(&mut o, "|");
    push_dec(&mut o, command as u64);
    push_str(&mut o, "|");
    push_dec(&mut o, response_len as u64);
    chars_to_string(&o)
}

/// The keepalive reply key stacks, and so does every idle-heartbeat key.
pub proof fn law_heartbeat_keys_stack(payload_len: usize)
    ensures
        coalesceable("B2C|0|0|R|16|KA"@),
        coalesceable("B2C|30722|1|N|"@ + dec(payload_len as nat) + "|IDLEHB"@),
{
    reveal_strlit("B2C|0|0|R|16|KA");
    reveal_strlit("|KA");
    reveal_strlit("|IDLEHB");
    let a = "B2C|0|0|R|16|KA"@;
    assert(a.subrange(12, 15) =~= "|KA"@);
    assert(crate::text::occurs_at(a, "|KA"@, 12));
    let b = "B2C|30722|1|N|"@ + dec(payload_len as nat) + "|IDLEHB"@;
    let p = b.len() - 7;
    assert(b.subrange(p, p + 7) =~= "|IDLEHB"@);
    assert(crate::text::occurs_at(b, "|IDLEHB"@, p));
}

} // verus!
