//! Terminal rendering of log events for the headless server: which tag a line
//! gets from its level and the channel markers it already carries.
use vstd::prelude::*;
use crate::text::{
    chars_to_string, contains_chars, contains_seq, is_ws, is_ws_exec, push_chars, push_str, replace_all,
    replace_all_exec, slice_range, str_chars, trim, trim_start, trim_vec,
};

verus! {

broadcast use vstd::string::group_string_axioms;

/// Level of a log event.
#[derive(Debug, Clone, Copy, PartialEq, Eq, Structural)]
pub enum TraceLevel {
    Error,
    Warn,
    Info,
    Debug,
    Trace,
}

pub const QOS_TAG_GREEN: &'static str = "\x1b[38;2;80;200;120m[QoS]\x1b[0m";

pub const ERROR_TAG_RED: &'static str = "\x1b[38;2;255;150;150m[ERROR]\x1b[0m";

pub const CONSOLE_TAG: &'static str = "\x1b[38;2;128;128;128m[Console]\x1b[0m";

pub const WARN_WORD: &'static str = "\x1b[38;2;255;200;0mWARN\x1b[0m";

pub open spec fn level_name(l: TraceLevel) -> Seq<char> {
    match l {
        TraceLevel::Error => "ERROR"@,
        TraceLevel::Warn => "WARN"@,
        TraceLevel::Info => "INFO"@,
        TraceLevel::Debug => "DEBUG"@,
        TraceLevel::Trace => "TRACE"@,
    }
}

pub open spec fn starts_with_seq(s: Seq<char>, p: Seq<char>) -> bool {
    p.len() <= s.len() && s.subrange(0, p.len() as int) == p
}

pub proof fn lemma_trim_start_len(s: Seq<char>)
    ensures
        trim_start(s).len() <= s.len(),
    decreases s.len(),
{
    if s.len() > 0 && is_ws(s[0]) {
        lemma_trim_start_len(s.drop_first());
    }
}

/// The message without its leading plain `[QoS]` tags (and the spaces after each).
pub open spec fn strip_plain_qos(s: Seq<char>) -> Seq<char>
    decreases s.len(),
{
    if starts_with_seq(s, "[QoS]"@) && "[QoS]"@.len() > 0 {
        let rest = s.subrange("[QoS]"@.len() as int, s.len() as int);
        proof {
            lemma_trim_start_len(rest);
        }
        strip_plain_qos(trim_start(rest))
    } else {
        s
    }
}

/// The line already names its channel (a relay arrow or an escape).
pub open spec fn has_ansi(m: Seq<char>) -> bool {
    contains_seq(m, seq!['\x1b']) || contains_seq(m, "\\x1b"@) || contains_seq(m, "[Client→"@) || contains_seq(
        m,
        "[Server→"@,
    ) || contains_seq(m, "[Blaze→"@)
}

pub open spec fn has_arrow(m: Seq<char>) -> bool {
    contains_seq(m, "[Client→"@) || contains_seq(m, "[Server→"@) || contains_seq(m, "[Blaze→"@)
}

pub open spec fn has_rts(m: Seq<char>) -> bool {
    contains_seq(m, "[RTS]"@) || contains_seq(m, "[RTS→"@) || contains_seq(m, "→RTS]"@)
}

pub open spec fn has_sim(m: Seq<char>) -> bool {
    contains_seq(m, "[SIM]"@) || contains_seq(m, "[Orchestration]"@) || contains_seq(m, "[CNC orchestration]"@)
}

pub open spec fn has_qos(m: Seq<char>) -> bool {
    contains_seq(m, "[QoS]"@)
}

/// The rendered line of an event (without its newline). `timestamp` is what
/// levels below INFO show first.
pub open spec fn headless_line(level: TraceLevel, m: Seq<char>, timestamp: Seq<char>) -> Seq<char> {
    let qos = QOS_TAG_GREEN@ + " "@ + strip_plain_qos(m);
    match level {
        TraceLevel::Info => if has_arrow(m) || has_rts(m) || has_sim(m) || has_ansi(m) {
            m
        } else if has_qos(m) {
            qos
        } else {
            CONSOLE_TAG@ + " "@ + m
        },
        TraceLevel::Error => if has_ansi(m) || has_rts(m) || has_sim(m) {
            m
        } else if has_qos(m) {
            qos
        } else {
            ERROR_TAG_RED@ + " "@ + m
        },
        TraceLevel::Warn => if has_ansi(m) || has_rts(m) || has_sim(m) {
            m
        } else if has_qos(m) {
            qos
        } else {
            CONSOLE_TAG@ + " "@ + WARN_WORD@ + " "@ + m
        },
        _ => timestamp + "  "@ + level_name(level) + " "@ + m,
    }
}

fn contains_lit(m: &Vec<char>, lit: &str) -> (b: bool)
    ensures
        b == contains_seq(m@, lit@),
{
    contains_chars(m, &str_chars(lit))
}

fn trim_start_exec(v: &Vec<char>) -> (r: Vec<char>)
    ensures
        r@ == trim_start(v@),
{
    let mut i: usize = 0;
    assert(v@.subrange(0, v@.len() as int) =~= v@);
    while i < v.len() && is_ws_exec(v[i])
        invariant
            i <= v@.len(),
            trim_start(v@) == trim_start(v@.subrange(i as int, v@.len() as int)),
        decreases v@.len() - i,
    {
        let ghost t = v@.subrange(i as int, v@.len() as int);
        assert(t.drop_first() =~= v@.subrange(i + 1, v@.len() as int));
        i = i + 1;
    }
    let n = v.len();
    slice_range(v, i, n)
}

fn strip_plain_qos_exec(m: &Vec<char>) -> (r: Vec<char>)
    ensures
        r@ == strip_plain_qos(m@),
{
    let tag = str_chars("[QoS]");
    let mut cur = slice_range(m, 0, m.len());
    assert(cur@ =~= m@);
    while crate::text::starts_with(&cur, &tag) && tag.len() > 0
        invariant
            tag@ == "[QoS]"@,
            strip_plain_qos(m@) == strip_plain_qos(cur@),
        decreases cur@.len(),
    {
        let n = cur.len();
        let rest = slice_range(&cur, tag.len(), n);
        cur = trim_start_exec(&rest);
        proof {
            lemma_trim_start_len(rest@);
        }
    }
    cur
}

/// Renders one log event for the headless terminal (see `headless_line`).
pub fn headless_log_line(level: TraceLevel, message: &str, timestamp: &str) -> (line: String)
    ensures
        line@ == headless_line(level, message@, timestamp@),
{
    let m = str_chars(message);
    let esc = vec!['\x1b'];
    assert(esc@ =~= seq!['\x1b']);
    let ansi_escape = contains_chars(&m, &esc);
    let literal_escape = contains_lit(&m, "\\x1b");
    let client_arrow = contains_lit(&m, "[Client→");
    let server_arrow = contains_lit(&m, "[Server→");
    let blaze_arrow = contains_lit(&m, "[Blaze→");
    let rts = contains_lit(&m, "[RTS]") || contains_lit(&m, "[RTS→") || contains_lit(&m, "→RTS]");
    let sim = contains_lit(&m, "[SIM]") || contains_lit(&m, "[Orchestration]") || contains_lit(
        &m,
        "[CNC orchestration]",
    );
    let qos = contains_lit(&m, "[QoS]");
    let ansi = ansi_escape || literal_escape || client_arrow || server_arrow || blaze_arrow;
    let arrow = client_arrow || server_arrow || blaze_arrow;
    let mut out: Vec<char> = Vec::new();
    match level {
        TraceLevel::Info => {
            if arrow || rts || sim || ansi {
                push_chars(&mut out, &m);
            } else if qos {
                push_str(&mut out, QOS_TAG_GREEN);
                push_str(&mut out, " ");
                push_chars(&mut out, &strip_plain_qos_exec(&m));
            } else {
                push_str(&mut out, CONSOLE_TAG);
                push_str(&mut out, " ");
                push_chars(&mut out, &m);
            }
        },
        TraceLevel::Error => {
            if ansi || rts || sim {
                push_chars(&mut out, &m);
            } else if qos {
                push_str(&mut out, QOS_TAG_GREEN);
                push_str(&mut out, " ");
                push_chars(&mut out, &strip_plain_qos_exec(&m));
            } else {
                push_str(&mut out, ERROR_TAG_RED);
                push_str(&mut out, " ");
                push_chars(&mut out, &m);
            }
        },
        TraceLevel::Warn => {
            if ansi || rts || sim {
                push_chars(&mut out, &m);
            } else if qos {
                push_str(&mut out, QOS_TAG_GREEN);
                push_str(&mut out, " ");
                push_chars(&mut out, &strip_plain_qos_exec(&m));
            } else {
                push_str(&mut out, CONSOLE_TAG);
                push_str(&mut out, " ");
                push_str(&mut out, WARN_WORD);
                push_str(&mut out, " ");
                push_chars(&mut out, &m);
            }
        },
        _ => {
            push_str(&mut out, timestamp);
            push_str(&mut out, "  ");
            push_str(
                &mut out,
                match level {
                    TraceLevel::Debug => "DEBUG",
                    _ => "TRACE",
                },
            );
            push_str(&mut out, " ");
            push_chars(&mut out, &m);
        },
    }
    assert(out@ =~= headless_line(level, message@, timestamp@));
    chars_to_string(&out)
}

/// Escapes that the field formatter writes as text (`\x1b`, `\u{001b}`) turned
/// back into the escape character.
pub open spec fn unescaped(s: Seq<char>) -> Seq<char> {
    replace_all(replace_all(s, "\\x1b"@, seq!['\x1b']), "\\u{001b}"@, seq!['\x1b'])
}

pub fn unescape_ansi_escapes(s: &str) -> (r: String)
    ensures
        r@ == unescaped(s@),
{
    proof {
        reveal_strlit("\\x1b");
        reveal_strlit("\\u{001b}");
    }
    let esc = vec!['\x1b'];
    assert(esc@ =~= seq!['\x1b']);
    let a = replace_all_exec(&str_chars(s), &str_chars("\\x1b"), &esc);
    let b = replace_all_exec(&a, &str_chars("\\u{001b}"), &esc);
    chars_to_string(&b)
}

} // verus!
