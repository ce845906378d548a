use refracted::console::{
    headless_log_line, unescape_ansi_escapes, TraceLevel, CONSOLE_TAG, ERROR_TAG_RED, QOS_TAG_GREEN, WARN_WORD,
};

#[test]
fn info_plain_message_gets_console_tag() {
    let line = headless_log_line(TraceLevel::Info, "server started", "[t]");
    assert_eq!(line, format!("{} server started", CONSOLE_TAG));
}

#[test]
fn info_relay_arrow_is_left_as_is() {
    let msg = "[Client→Server] hello";
    assert_eq!(headless_log_line(TraceLevel::Info, msg, "[t]"), msg);
    let rts = "[RTS] frame";
    assert_eq!(headless_log_line(TraceLevel::Info, rts, "[t]"), rts);
    let sim = "[CNC orchestration] step";
    assert_eq!(headless_log_line(TraceLevel::Info, sim, "[t]"), sim);
}

#[test]
fn info_qos_tags_are_stripped_and_recoloured() {
    let line = headless_log_line(TraceLevel::Info, "[QoS]  [QoS] probe ok", "[t]");
    assert_eq!(line, format!("{} probe ok", QOS_TAG_GREEN));
}

#[test]
fn qos_tag_not_at_start_is_kept() {
    let line = headless_log_line(TraceLevel::Info, "probe [QoS] ok", "[t]");
    assert_eq!(line, format!("{} probe [QoS] ok", QOS_TAG_GREEN));
}

#[test]
fn error_plain_message_gets_red_tag() {
    let line = headless_log_line(TraceLevel::Error, "bind failed", "[t]");
    assert_eq!(line, format!("{} bind failed", ERROR_TAG_RED));
}

#[test]
fn error_with_escape_is_left_as_is() {
    let msg = "\x1b[31mboom\x1b[0m";
    assert_eq!(headless_log_line(TraceLevel::Error, msg, "[t]"), msg);
    let literal = "text \\x1b[0m";
    assert_eq!(headless_log_line(TraceLevel::Error, literal, "[t]"), literal);
}

#[test]
fn warn_plain_message_gets_console_and_warn_word() {
    let line = headless_log_line(TraceLevel::Warn, "slow peer", "[t]");
    assert_eq!(line, format!("{} {} slow peer", CONSOLE_TAG, WARN_WORD));
}

#[test]
fn debug_and_trace_show_timestamp_and_level() {
    assert_eq!(
        headless_log_line(TraceLevel::Debug, "x=1", "[2024-01-01T00:00:00.000000Z]"),
        "[2024-01-01T00:00:00.000000Z]  DEBUG x=1"
    );
    assert_eq!(headless_log_line(TraceLevel::Trace, "[QoS] y", "[ts]"), "[ts]  TRACE [QoS] y");
}

#[test]
fn unescape_turns_literal_escapes_into_esc() {
    assert_eq!(unescape_ansi_escapes("a\\x1b[0mb"), "a\x1b[0mb");
    assert_eq!(unescape_ansi_escapes("\\u{001b}[1m"), "\x1b[1m");
    assert_eq!(unescape_ansi_escapes("plain"), "plain");
}
