use refracted::cnc::dedicated_pool::BlazeSessionInfo;
use refracted::cnc::game_state::match_lost::{blaze_session_for_persona, PLAYER_REMOVED_REASON_GAME_DESTROYED};
use refracted::cnc::game_state::{GamePhase, GameRegistry};

fn session(id: u64, persona: Option<u64>) -> BlazeSessionInfo {
    BlazeSessionInfo { id, peer: "127.0.0.1:5000".to_string(), clnt: None, display_name: None, persona_id: persona }
}

#[test]
fn sessions_of_a_persona() {
    let ss = vec![session(3, None), session(5, Some(100)), session(6, Some(100))];
    assert_eq!(blaze_session_for_persona(&ss, 100), Some(5));
    assert_eq!(blaze_session_for_persona(&ss, 200), None);
    assert_eq!(blaze_session_for_persona(&ss, 0), None);
}

#[test]
fn a_reported_persona_reads_lost_until_cleared() {
    let mut reg = GameRegistry::new();
    reg.seed_from_join(1, 100, "Host", None);
    let ss = vec![session(5, Some(100))];
    reg.notify_shell_match_lost(1, 100, &ss, 50);
    let st = reg.match_connection_status(1, 100, &ss);
    assert!(st.lost && st.server_lost && st.client_lost && st.shell_lost);
    assert_eq!((st.gid, st.pid), (1, 100));
    // Another match of the same persona does not read lost.
    assert!(!reg.match_connection_status(2, 100, &ss).lost);
    // A poll without persona reads the match note.
    assert!(reg.match_connection_status(1, 0, &ss).lost);
    reg.clear_persona_match_lost(100);
    assert!(!reg.match_connection_status(1, 100, &ss).lost);
}

#[test]
fn a_record_whose_session_is_gone_is_dropped() {
    let mut reg = GameRegistry::new();
    reg.seed_from_join(1, 100, "Host", None);
    let ss = vec![session(5, Some(100))];
    reg.notify_shell_match_lost(1, 100, &ss, 50);
    assert!(!reg.match_connection_status(1, 100, &vec![]).lost);
    // Dropped for good: the session coming back does not revive it.
    assert!(!reg.match_connection_status(1, 100, &ss).lost);
}

#[test]
fn a_bare_match_report_marks_its_humans() {
    let mut reg = GameRegistry::new();
    reg.seed_from_join(1, 100, "Host", None);
    let ss = vec![session(5, Some(100))];
    reg.notify_shell_match_lost(1, 0, &ss, 50);
    assert!(reg.server_lost(1));
    assert!(reg.match_connection_status(1, 100, &ss).lost);
    reg.clear_match_connection_lost(1);
    assert!(!reg.server_lost(1));
    assert!(!reg.match_connection_status(1, 100, &ss).lost);
    assert!(!reg.match_connection_status(1, 0, &ss).lost);
}

#[test]
fn signal_resolves_the_live_match_and_lists_who_leaves() {
    let mut reg = GameRegistry::new();
    let ss = vec![session(5, Some(100))];
    assert_eq!(reg.signal_lost_game_server(0, &ss, 7, 10), None);
    reg.seed_from_join(1, 100, "Host", None);
    reg.seed_from_join(3, 300, "Other", None);
    assert_eq!(reg.resolve_active_match_gid(0), 0);
    reg.set_phase(1, GamePhase::InGame);
    assert_eq!(reg.resolve_active_match_gid(0), 1);
    assert_eq!(reg.resolve_active_match_gid(9), 9);
    let t = reg.signal_lost_game_server(0, &ss, 7, 10).unwrap();
    assert_eq!(t.gid, 1);
    assert_eq!(t.personas, vec![100]);
    assert_eq!(t.reason, PLAYER_REMOVED_REASON_GAME_DESTROYED);
    assert!(reg.server_lost(1));
    assert!(reg.match_connection_status(1, 100, &ss).lost);
    // A gid without humans falls back to the local persona.
    let t = reg.signal_lost_game_server(42, &ss, 7, 11).unwrap();
    assert_eq!((t.gid, t.personas), (42, vec![7]));
}
