use refracted::blaze::connection_info_coalesce::{
    key_b2c_blaze_inject, key_b2c_idle_user_session_ex, key_b2c_keepalive_reply, key_b2c_notif, key_b2c_reply,
    key_c2b, key_c2b_keepalive, key_fire_b2c, key_fire_c2b, CoalescedBlazeInfo, PingBurstCoalescer,
};

#[test]
fn keys_have_their_documented_shape() {
    assert_eq!(key_c2b(1, 2, 30, "REQ"), "C2B|1|2|30|REQ");
    assert_eq!(key_b2c_reply(1, 2, 40), "B2C|1|2|R|40");
    assert_eq!(key_b2c_notif(30722, 1, 12), "B2C|30722|1|N|12");
    assert_eq!(key_b2c_idle_user_session_ex(12), "B2C|30722|1|N|12|IDLEHB");
    assert_eq!(key_c2b_keepalive(16, "KA"), "C2B|0|0|16|KA");
    assert_eq!(key_b2c_keepalive_reply(), "B2C|0|0|R|16|KA");
    assert_eq!(key_b2c_blaze_inject(4, 20, 7, "NOTIFY", 99), "B2C|INJECT|4|20|NOTIFY|7|99");
    assert_eq!(key_fire_c2b(4, 20, 50), "FR2B|4|20|50");
    assert_eq!(key_fire_b2c(4, 20, 60), "B2FR|4|20|60");
}

#[test]
fn heartbeats_stack_and_other_lines_do_not() {
    let mut c = CoalescedBlazeInfo::new_scoped("S1");
    let ka = key_b2c_keepalive_reply();
    let u1 = c.log(&ka, "ka".to_string(), false);
    assert_eq!(u1.key, "S1|B2C|0|0|R|16|KA");
    assert_eq!(u1.text, "ka");
    let u2 = c.log(&ka, "ka".to_string(), false);
    assert_eq!(u2.key, "S1|B2C|0|0|R|16|KA");
    assert_eq!(u2.text, "ka \x1b[38;2;140;140;140mx2\x1b[0m");
    // A distinct line gets its own numbered row and ends the run.
    let other = key_c2b(1, 2, 30, "REQ");
    let u3 = c.log(&other, "req".to_string(), false);
    assert_eq!(u3.key, "S1|C2B|1|2|30|REQ|1");
    assert_eq!(u3.text, "req");
    let u4 = c.log(&other, "req".to_string(), false);
    assert_eq!(u4.key, "S1|C2B|1|2|30|REQ|2");
    // The heartbeat run starts over.
    let u5 = c.log(&ka, "ka".to_string(), false);
    assert_eq!(u5.text, "ka");
}

#[test]
fn flush_ends_a_heartbeat_run() {
    let mut c = CoalescedBlazeInfo::new();
    let ka = key_b2c_idle_user_session_ex(8);
    c.log(&ka, "hb".to_string(), false);
    c.log(&ka, "hb".to_string(), false);
    c.flush();
    let u = c.log(&ka, "hb".to_string(), false);
    assert_eq!(u.key, "GLOBAL|B2C|30722|1|N|8|IDLEHB");
    assert_eq!(u.text, "hb");
}

#[test]
fn coalescer_rewrites_tags_for_server_sessions() {
    let mut c = CoalescedBlazeInfo::new_scoped("S");
    c.set_blaze_session_id(Some(7));
    let u = c.log("x", "[Client→Blaze] ping".to_string(), true);
    assert_eq!(u.text, "[Server→Blaze] ping");
    let mut d = CoalescedBlazeInfo::new_scoped("S");
    let u = d.log("x", "[Client→Blaze] ping".to_string(), true);
    assert_eq!(u.text, "[Client→Blaze] ping");
}

#[test]
fn ping_counters_keep_growing() {
    let mut p = PingBurstCoalescer::new_scoped("P");
    assert_eq!(p.log_request("ping".to_string(), false).text, "ping");
    p.flush();
    let u = p.log_request("ping".to_string(), false);
    assert_eq!(u.key, "P|PING_REQ");
    assert_eq!(u.text, "ping \x1b[38;2;140;140;140mx2\x1b[0m");
    let r = p.log_reply("pong".to_string(), false);
    assert_eq!(r.key, "P|PING_REP");
    assert_eq!(r.text, "pong");
}
