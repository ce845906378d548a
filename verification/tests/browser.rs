use refracted::cnc::browser::browser_game_list;
use refracted::cnc::dedicated_pool::{BlazeSessionInfo, DedicatedPool, DEDICATED_PING_TCP_PORT};
use refracted::cnc::game_state::GameRegistry;
use refracted::cnc::lobby::reclaim_after_empty_humans;

fn server_session(id: u64) -> BlazeSessionInfo {
    BlazeSessionInfo {
        id,
        peer: "10.0.0.5:40000".to_string(),
        clnt: Some("RtsBlazeServer".to_string()),
        display_name: None,
        persona_id: None,
    }
}

fn two_dedicateds() -> DedicatedPool {
    let mut pool = DedicatedPool::new();
    pool.sync_from_blaze_sessions(vec![server_session(7), server_session(8)], 10);
    let (_, _, g7) = pool.on_register_creator(7, "DEDI-7", 10).unwrap();
    let (_, _, g8) = pool.on_register_creator(8, "DEDI-8", 10).unwrap();
    assert_eq!((g7, g8), (10007, 10008));
    pool
}

#[test]
fn browser_lists_standby_games_then_idle_pool_entries() {
    let pool = two_dedicateds();
    let mut reg = GameRegistry::new();
    reg.ensure_standby_game(10007, "DEDI-7", 7);
    reg.ensure_standby_game(20000, "Second room of 7", 7);
    reg.ensure_standby_game(30000, "Gone", 99);
    reg.seed_from_join(1, 100, "Host", None);
    let ips = vec![(7u64, "10.0.0.5".to_string())];
    let rows = browser_game_list(&mut reg, &pool, &vec![], &ips, 20);

    // The game of a dedicated that left the pool is gone; the rest stay.
    assert!(!reg.contains_game(30000));
    assert!(reg.contains_game(10007));
    assert!(reg.contains_game(20000));
    assert!(reg.contains_game(1));

    assert_eq!(rows.len(), 2);
    let a = &rows[0];
    assert_eq!(a.gid, 10007);
    assert_eq!(a.name, "DEDI-7");
    assert_eq!(a.map, "Standby");
    assert_eq!(a.map_path, "");
    assert_eq!((a.players, a.humans, a.max_players, a.admin), (0, 0, 8, 0));
    assert_eq!(a.phase, "Standby");
    assert_eq!(a.phase_code, 1);
    assert!(a.joinable);
    assert_eq!(a.dedicated_session_id, 7);
    assert_eq!(a.ping_host.as_deref(), Some("10.0.0.5"));
    assert_eq!(a.ping_port, DEDICATED_PING_TCP_PORT);
    assert!(a.is_standby);
    assert_eq!(a.kind(), "standby");
    assert!(!a.password_protected);
    assert_eq!(a.password_attr.as_deref(), Some("_password"));

    let b = &rows[1];
    assert_eq!(b.gid, 10008);
    assert_eq!(b.name, "DEDI-8");
    assert_eq!(b.map, "Standby");
    assert_eq!(b.phase, "Standby");
    assert_eq!(b.phase_code, 0);
    assert!(b.joinable);
    assert_eq!(b.dedicated_session_id, 8);
    assert_eq!(b.ping_host, None);
    assert!(b.is_standby);
    assert_eq!(b.password_attr, None);
}

#[test]
fn browser_marks_a_recycling_dedicated() {
    let mut pool = two_dedicateds();
    let mut reg = GameRegistry::new();
    reg.ensure_standby_game(10007, "DEDI-7", 7);
    let _ = reclaim_after_empty_humans(&mut reg, &mut pool, 10007, &vec![], 20);
    let rows = browser_game_list(&mut reg, &pool, &vec![], &vec![], 21);
    assert_eq!(rows.len(), 2);
    assert_eq!(rows[0].gid, 10007);
    assert_eq!(rows[0].phase, "Recycling");
    assert!(!rows[0].joinable);
    // Without a parsed IP the raw peer address is pinged.
    assert_eq!(rows[0].ping_host.as_deref(), Some("10.0.0.5:40000"));
    assert_eq!(rows[1].gid, 10008);
    assert_eq!(rows[1].phase, "Standby");
}

#[test]
fn browser_is_empty_without_dedicateds() {
    let pool = DedicatedPool::new();
    let mut reg = GameRegistry::new();
    reg.seed_from_join(1, 100, "Host", None);
    let rows = browser_game_list(&mut reg, &pool, &vec![], &vec![], 5);
    assert!(rows.is_empty());
    assert!(reg.contains_game(1));
}
