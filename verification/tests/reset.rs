use refracted::cnc::dedicated_pool::{BlazeSessionInfo, DedicatedPool, DedicatedPoolState};
use refracted::cnc::game_state::GameRegistry;
use refracted::cnc::reset::{orchestrate_client_reset, ResetOutcome};

fn server_session(id: u64) -> BlazeSessionInfo {
    BlazeSessionInfo {
        id,
        peer: "10.0.0.5:40000".to_string(),
        clnt: Some("RtsBlazeServer".to_string()),
        display_name: None,
        persona_id: None,
    }
}

fn client_session(id: u64) -> BlazeSessionInfo {
    BlazeSessionInfo {
        id,
        peer: "10.0.0.9:40001".to_string(),
        clnt: Some("RtsBlazeClient".to_string()),
        display_name: None,
        persona_id: Some(1201618778),
    }
}

#[test]
fn reset_assigns_an_idle_dedicated_and_adopts_the_lobby_map() {
    let sessions = vec![server_session(7), client_session(8)];
    let mut pool = DedicatedPool::new();
    pool.sync_from_blaze_sessions(sessions.clone(), 100);
    let (_, persona, _) = pool.on_register_creator(7, "DEDI-1", 100).unwrap();
    let mut reg = GameRegistry::new();
    reg.seed_from_join(1, 100, "Host", None);
    reg.set_map_selection(1, "Levels/MP/Oasis", 4);
    reg.seed_from_join(5, 100, "Host", None);
    let ips = vec![(7u64, 0x0a00_0005i32)];
    let out = orchestrate_client_reset(&mut pool, &mut reg, &sessions, 8, 5, 100, "Host", 1201618778, &ips, 200);
    let a = match out {
        ResetOutcome::Assigned(a) => a,
        other => panic!("unexpected {:?}", other),
    };
    assert_eq!(a.dedicated_session_id, 7);
    assert_eq!(a.wanted_map.as_deref(), Some("Levels/MP/Oasis"));
    assert_eq!(a.host.blaze_session_id, 7);
    assert_eq!(a.host.inip_ip, 0x0a00_0005);
    assert_eq!(a.host_persona, persona as i64);
    assert_eq!(a.recycle_wait_secs, 0);
    // The client's row: its session's persona, named after its slot.
    let row = a.client_player.unwrap();
    assert_eq!((row.persona_id, row.slot, row.display_name.as_str()), (1201618778, 1, "Player2"));
    assert!(reg.is_player_in_game(5, 1201618778));
    assert_eq!(reg.get_map_path(5), "Levels/MP/Oasis");
    assert!(reg.has_orchestration(5));
    assert_eq!(pool.client_session_for_gid(5), Some(8));
    let e = pool.get_entry(7).unwrap();
    assert_eq!(e.state, DedicatedPoolState::InUse);
    assert_eq!(e.current_gid, Some(5));
    // Asked again while orchestrated: the same dedicated.
    let again = orchestrate_client_reset(&mut pool, &mut reg, &sessions, 8, 5, 100, "Host", 1201618778, &ips, 201);
    assert!(matches!(again, ResetOutcome::AlreadyOrchestrated(7)));
    // A dedicated session asking does nothing.
    let from_ded = orchestrate_client_reset(&mut pool, &mut reg, &sessions, 7, 5, 100, "Host", 1201618778, &ips, 202);
    assert!(matches!(from_ded, ResetOutcome::FromDedicated));
}

#[test]
fn stale_assignment_is_re_orchestrated() {
    let sessions = vec![server_session(7), client_session(8)];
    let mut pool = DedicatedPool::new();
    pool.sync_from_blaze_sessions(sessions.clone(), 100);
    pool.on_register_creator(7, "DEDI-1", 100).unwrap();
    let mut reg = GameRegistry::new();
    reg.seed_from_join(5, 100, "Host", None);
    let first = orchestrate_client_reset(&mut pool, &mut reg, &sessions, 8, 5, 100, "Host", 0, &vec![], 200);
    assert!(matches!(first, ResetOutcome::Assigned(_)));
    reg.clear_orchestration(5);
    let second = orchestrate_client_reset(&mut pool, &mut reg, &sessions, 8, 5, 100, "Host", 0, &vec![], 300);
    match second {
        ResetOutcome::Assigned(a) => {
            assert_eq!(a.dedicated_session_id, 7);
            assert_eq!(a.wanted_map, None);
            assert_eq!(a.host.inip_ip, 0);
        },
        other => panic!("unexpected {:?}", other),
    }
    assert!(reg.has_orchestration(5));
}

#[test]
fn reset_without_a_dedicated() {
    let sessions = vec![client_session(8)];
    let mut pool = DedicatedPool::new();
    let mut reg = GameRegistry::new();
    reg.seed_from_join(5, 100, "Host", None);
    let out = orchestrate_client_reset(&mut pool, &mut reg, &sessions, 8, 5, 100, "Host", 0, &vec![], 200);
    assert!(matches!(out, ResetOutcome::NoDedicated));
    assert!(!reg.has_orchestration(5));
}

#[test]
fn game_uuid_and_clearing_games() {
    let mut reg = GameRegistry::new();
    reg.seed_from_join(5, 100, "Host", None);
    let u = reg.game_uuid(5);
    assert_eq!(u.len(), 36);
    assert_eq!(reg.game_uuid(5), u);
    let fresh = reg.game_uuid(6);
    assert_eq!(fresh.len(), 36);
    assert_eq!(fresh.as_bytes()[14], b'4');
    assert_ne!(fresh, u);
    reg.clear_all_games_for_test();
    assert!(!reg.contains_game(5));
}

#[test]
fn client_rows_take_the_first_free_slot() {
    let mut reg = GameRegistry::new();
    reg.seed_from_join(2, 100, "Host", None);
    let p = reg.ensure_client_player(2, 300, "Guest", 100, "Host", None).unwrap();
    assert_eq!((p.slot, p.ready, p.display_name.as_str()), (1, false, "Guest"));
    // The host's existing row is refreshed and ready.
    let h = reg.ensure_client_player(2, 100, "", 100, "Host", None).unwrap();
    assert_eq!((h.slot, h.ready), (0, true));
    assert_eq!(reg.player_count(2), 2);
    // No game: none.
    assert!(reg.ensure_player_row(77, 1, "x", 100, None).is_none());
}
