use refracted::cnc::dedicated_pool::{
    clnt_qualifies_for_pool, is_pool_standby_gid, msgsys_hub_listen_port, standby_gid_for_session,
    BlazeSessionInfo, DedicatedPool, DedicatedPoolState,
};

fn server_session(id: u64) -> BlazeSessionInfo {
    BlazeSessionInfo {
        id,
        peer: "10.0.0.5:40000".to_string(),
        clnt: Some("RtsBlazeServer".to_string()),
        display_name: None,
        persona_id: None,
    }
}

fn client_session(id: u64) -> BlazeSessionInfo {
    BlazeSessionInfo {
        id,
        peer: "10.0.0.9:40001".to_string(),
        clnt: Some("RtsBlazeClient".to_string()),
        display_name: None,
        persona_id: Some(1201618778),
    }
}

#[test]
fn clnt_includes_server_substring() {
    assert!(clnt_qualifies_for_pool("RtsBlazeServer"));
    assert!(clnt_qualifies_for_pool("cnc.server"));
    assert!(clnt_qualifies_for_pool("SomeServerThing"));
    assert!(!clnt_qualifies_for_pool("RtsBlazeClient"));
}

#[test]
fn msgsys_hub_is_one_below_serverhost() {
    assert_eq!(msgsys_hub_listen_port(18387), 18386);
    assert_eq!(msgsys_hub_listen_port(18397), 18396);
}

#[test]
fn normalize_rewrites_client_tags_for_server_sessions() {
    let line = "[Client→Blaze] PreAuthRequest clnt=RtsBlazeServer";
    assert_eq!(
        DedicatedPool::new().normalize_blaze_wire_log_line(0, line),
        line,
        "unknown session id should not rewrite"
    );
}

#[test]
fn server_sessions_get_server_tags() {
    let mut pool = DedicatedPool::new();
    pool.sync_from_blaze_sessions(vec![server_session(7), client_session(8)], 100);
    assert!(pool.blaze_wire_peer_is_server(7));
    assert!(!pool.blaze_wire_peer_is_server(8));
    assert_eq!(pool.blaze_wire_peer_label(7), "Server");
    assert_eq!(pool.blaze_wire_peer_label(8), "Client");
    assert_eq!(
        pool.normalize_blaze_wire_log_line(7, "[Client→Blaze] x [Blaze→Client] y"),
        "[Server→Blaze] x [Blaze→Server] y"
    );
    assert_eq!(pool.normalize_blaze_wire_log_line(8, "[Client→Blaze] x"), "[Client→Blaze] x");
}

#[test]
fn sync_keeps_only_server_sessions_that_are_live() {
    let mut pool = DedicatedPool::new();
    pool.sync_from_blaze_sessions(vec![server_session(7), client_session(8)], 100);
    assert!(pool.get_entry(7).is_some());
    assert!(pool.get_entry(8).is_none());
    assert!(pool.is_dedicated_blaze_session(7));
    pool.sync_from_blaze_sessions(vec![client_session(8)], 101);
    assert!(pool.get_entry(7).is_none());
    assert!(!pool.is_dedicated_blaze_session(7));
}

#[test]
fn registering_a_creator_binds_the_standby_gid() {
    let mut pool = DedicatedPool::new();
    pool.sync_from_blaze_sessions(vec![server_session(7)], 100);
    let (name, persona, gid) = pool.on_register_creator(7, "DEDI-1", 100).unwrap();
    assert_eq!(gid, standby_gid_for_session(7));
    assert_eq!(gid, 10_007);
    assert!(is_pool_standby_gid(gid));
    assert!(!name.is_empty());
    let e = pool.get_entry(7).unwrap();
    assert!(e.creator_registered);
    assert_eq!(e.state, DedicatedPoolState::Idle);
    assert_eq!(e.current_gid, Some(gid));
    assert_eq!(e.persona_id, Some(persona));
    assert_eq!(e.server_hostname.as_deref(), Some("DEDI-1"));
    // A second registration of the same bound creator is refused.
    assert!(pool.on_register_creator(7, "DEDI-1", 101).is_none());
    // The identity is stable for the session.
    let (name2, persona2) = pool.allocate_dedicated_identity(7);
    assert_eq!((name2, persona2), (name, persona));
    assert_eq!(pool.registered_pool_gid(), Some(gid));
}

#[test]
fn standby_gids_live_in_the_pool_namespace() {
    assert_eq!(standby_gid_for_session(0), 10_000);
    assert_eq!(standby_gid_for_session(900_001), 10_001);
    assert!(!is_pool_standby_gid(9_999));
    assert!(is_pool_standby_gid(10_000));
}

#[test]
fn state_labels() {
    assert_eq!(DedicatedPoolState::Idle.label(), "idle (pool)");
    assert_eq!(DedicatedPoolState::Recycling.label(), "recycling (unload)");
    assert_eq!(DedicatedPoolState::InUse.label(), "in use");
}
