use refracted::cnc::dedicated_pool::DEDICATED_PING_TCP_PORT;
use refracted::cnc::game_state::{GamePhase, GameRegistry};
use refracted::cnc::queries::{
    gid_query_param, parse_gid_pid_password, parse_leave_game_query, parse_server_ping_query, player_ready_request,
    select_map_request, start_battle, PasswordBody, QueryError, SelectMapBody, StartBattle,
};

#[test]
fn gid_of_a_query() {
    assert_eq!(gid_query_param(None), 1);
    assert_eq!(gid_query_param(Some("gid=7")), 7);
    assert_eq!(gid_query_param(Some("gid=7&gid=x")), 1);
    assert_eq!(gid_query_param(Some("a=1&gid=%2B12")), 12);
    assert_eq!(gid_query_param(Some("gid")), 1);
}

#[test]
fn select_map_takes_query_then_body() {
    let mut reg = GameRegistry::new();
    assert_eq!(select_map_request(&mut reg, Some("gid=2"), None), Err(QueryError::MissingPath));
    let r = select_map_request(&mut reg, Some("gid=2&level=Levels%2FMP%2FOasis"), None).unwrap();
    assert_eq!(r, (2, "Levels/MP/Oasis".to_string()));
    assert_eq!(reg.get_map_path(2), "Levels/MP/Oasis");
    let body = SelectMapBody { gid: Some(3), path: Some("Levels/MP/Dunes".to_string()) };
    let r = select_map_request(&mut reg, None, Some(&body)).unwrap();
    assert_eq!(r, (3, "Levels/MP/Dunes".to_string()));
    // A query path wins over the body.
    let r = select_map_request(&mut reg, Some("path=A"), Some(&body)).unwrap();
    assert_eq!(r, (1, "A".to_string()));
}

#[test]
fn password_parameters_fall_back_to_the_session() {
    assert_eq!(parse_gid_pid_password(Some("gid=4&pass=a+b"), None, 55), (4, 55, "a b".to_string()));
    assert_eq!(parse_gid_pid_password(Some("gid=4&player=9&pwd=x"), None, 55), (4, 9, "x".to_string()));
    let body = PasswordBody { gid: Some(6), pid: None, password: Some("s".to_string()) };
    assert_eq!(parse_gid_pid_password(Some("gid=4&pid=-3"), Some(&body), 0), (6, -3, "s".to_string()));
}

#[test]
fn leave_parameters() {
    assert_eq!(parse_leave_game_query(Some("pid=3"), 0), Err(QueryError::GidRequired));
    assert_eq!(parse_leave_game_query(Some("gid=2&pid=3"), 0), Ok((2, 3, false)));
    assert_eq!(parse_leave_game_query(Some("gid=2&pid=3&force=TRUE"), 0), Ok((2, 3, true)));
    assert_eq!(parse_leave_game_query(Some("gid=2"), 0), Ok((2, 0, true)));
    assert_eq!(parse_leave_game_query(Some("gid=2"), 77), Ok((2, 77, false)));
}

#[test]
fn ping_parameters() {
    assert_eq!(parse_server_ping_query(None), (String::new(), DEDICATED_PING_TCP_PORT));
    assert_eq!(parse_server_ping_query(Some("host=10.0.0.5&port=20000")), ("10.0.0.5".to_string(), 20000));
    assert_eq!(parse_server_ping_query(Some("port=20000&port=x")), (String::new(), 20000));
    assert_eq!(parse_server_ping_query(Some("port=70000")).1, DEDICATED_PING_TCP_PORT);
}

#[test]
fn ready_toggle() {
    let mut reg = GameRegistry::new();
    reg.seed_from_join(1, 100, "Host", None);
    let r = player_ready_request(&mut reg, Some("pid=100&ready=0"), 0, 100);
    assert!(r.ok && !r.ready);
    assert_eq!((r.gid, r.pid, r.admin), (1, 100, 100));
    // The host counts as ready anyway.
    assert!(r.all_ready);
    let r = player_ready_request(&mut reg, Some("gid=5"), 0, 100);
    assert!(!r.ok);
    assert_eq!((r.gid, r.pid, r.admin), (5, 1000, 100));
    assert!(r.ready && !r.all_ready);
}

#[test]
fn start_battle_needs_everyone_ready() {
    let mut reg = GameRegistry::new();
    assert_eq!(start_battle(&mut reg, 1, 100), StartBattle::NotAllReady { admin: 100 });
    reg.seed_from_join(1, 100, "Host", None);
    match start_battle(&mut reg, 1, 100) {
        StartBattle::Started { phase, player_count, humans } => {
            assert_eq!(phase, GamePhase::Resetable);
            assert_eq!(player_count, 1);
            assert_eq!(humans, vec![100]);
        },
        other => panic!("unexpected {:?}", other),
    }
    assert_eq!(reg.get_phase(1), GamePhase::InGame);
    assert_eq!(start_battle(&mut reg, 1, 100), StartBattle::AlreadyInGame);
}
