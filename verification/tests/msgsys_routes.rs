use refracted::cnc::dedicated_pool::{BlazeSessionInfo, DedicatedPool};
use refracted::cnc::game_state::GameRegistry;
use refracted::cnc::msgsys_routes::{
    msgsys_upstream_for_gid, msgsys_upstream_for_serverhost_port, upstream_for_dedicated_sid, MsgsysRoutes, Upstream,
};

fn server_session(id: u64) -> BlazeSessionInfo {
    BlazeSessionInfo {
        id,
        peer: "10.0.0.5:40000".to_string(),
        clnt: Some("RtsBlazeServer".to_string()),
        display_name: None,
        persona_id: None,
    }
}

fn up(host: &str, port: u16) -> Option<Upstream> {
    Some(Upstream { host: host.to_string(), port })
}

#[test]
fn routes_follow_persona_then_ip_then_the_only_choice() {
    let mut pool = DedicatedPool::new();
    pool.sync_from_blaze_sessions(vec![server_session(7)], 10);
    pool.on_register_creator(7, "D", 10).unwrap();
    let mut reg = GameRegistry::new();
    reg.ensure_standby_game(10007, "D", 7);
    let ips = vec![(7u64, "10.0.0.5".to_string())];
    let sessions = vec![server_session(7)];

    assert_eq!(upstream_for_dedicated_sid(&pool, &ips, 7), up("10.0.0.5", 18387));
    assert_eq!(upstream_for_dedicated_sid(&pool, &vec![], 7), up("127.0.0.1", 18387));
    assert_eq!(upstream_for_dedicated_sid(&pool, &ips, 8), None);
    assert_eq!(msgsys_upstream_for_gid(&pool, &reg, &ips, 10007), up("10.0.0.5", 18387));
    assert_eq!(msgsys_upstream_for_serverhost_port(&pool, &ips, 18387), up("10.0.0.5", 18387));
    assert_eq!(msgsys_upstream_for_serverhost_port(&pool, &ips, 20000), None);

    let mut routes = MsgsysRoutes::new();
    // Without any route nor hosting dedicated nothing is chosen.
    assert_eq!(routes.resolve_unambiguous_msgsys_upstream(&mut pool, &reg, &ips, sessions.clone(), 11), None);
    routes.note_client_msgsys_route(&pool, &reg, 10007, 100, Some(55), Some("10.1.1.1".to_string()));
    // Non-positive gids or personas are not routed.
    routes.note_client_msgsys_route(&pool, &reg, 0, 101, None, None);
    let r = |routes: &MsgsysRoutes, pool: &mut DedicatedPool, ip: &str, lo: bool, p: Option<u64>| {
        routes.resolve_client_msgsys_upstream(pool, &reg, &ips, sessions.clone(), 12, ip, lo, p)
    };
    assert_eq!(r(&routes, &mut pool, "1.2.3.4", false, Some(100)), up("10.0.0.5", 18387));
    assert_eq!(r(&routes, &mut pool, "1.2.3.4", false, Some(999)), None);
    assert_eq!(r(&routes, &mut pool, "10.1.1.1", false, None), up("10.0.0.5", 18387));
    assert_eq!(r(&routes, &mut pool, "127.0.0.1", true, None), up("10.0.0.5", 18387));
    assert_eq!(r(&routes, &mut pool, "9.9.9.9", false, Some(0)), up("10.0.0.5", 18387));
    routes.clear_client_msgsys_routes_for_gid(10007);
    assert_eq!(r(&routes, &mut pool, "10.1.1.1", false, None), None);
}

#[test]
fn humans_of_a_match_get_routes() {
    let pool = DedicatedPool::new();
    let mut reg = GameRegistry::new();
    reg.seed_from_join(1, 100, "Host", None);
    let mut routes = MsgsysRoutes::new();
    routes.note_human_msgsys_routes_for_gid(&pool, &reg, 1, Some(3));
    routes.note_client_msgsys_route_from_current_session(&pool, &reg, 1, 200, Some(4), &vec![(4u64, "10.2.2.2".to_string())]);
    let mut p2 = DedicatedPool::new();
    // Routes exist, but no dedicated backs match 1.
    assert_eq!(routes.resolve_client_msgsys_upstream(&mut p2, &reg, &vec![], vec![], 1, "x", false, Some(100)), None);
    assert_eq!(
        routes.resolve_client_msgsys_upstream(&mut p2, &reg, &vec![], vec![], 1, "10.2.2.2", false, None),
        None
    );
}
