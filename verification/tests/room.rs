use refracted::cnc::dedicated_pool::{BlazeSessionInfo, DedicatedPool};
use refracted::cnc::game_state::room::{lobby_roster, LobbyRoster, PasswordCheck, SettingsChange};
use refracted::cnc::game_state::GameRegistry;
use refracted::cnc::lobby_chat::LobbyChat;

#[test]
fn password_is_host_only_and_trimmed() {
    let mut reg = GameRegistry::new();
    assert_eq!(reg.set_game_password(1, 100, "x"), SettingsChange::NotFound);
    reg.seed_from_join(1, 100, "Host", None);
    assert_eq!(reg.set_game_password(1, 200, "x"), SettingsChange::HostOnly { admin: 100 });
    assert!(!reg.is_password_protected(1));
    assert_eq!(reg.set_game_password(1, 100, "  secret \n"), SettingsChange::Applied);
    assert_eq!(reg.get_game(1).unwrap().password, "secret");
    assert!(reg.is_password_protected(1));
    // A persona of 0 is not checked against the host.
    assert_eq!(reg.set_game_password(1, 0, "   "), SettingsChange::Applied);
    assert!(!reg.is_password_protected(1));
}

#[test]
fn password_check_authorizes_for_a_while() {
    let mut reg = GameRegistry::new();
    assert_eq!(reg.verify_game_password(1, 200, "x", 10), PasswordCheck::NotFound);
    reg.seed_from_join(1, 100, "Host", None);
    assert_eq!(reg.verify_game_password(1, 200, "x", 10), PasswordCheck::Open);
    reg.set_game_password(1, 100, "secret");
    assert_eq!(reg.verify_game_password(1, 200, "nope", 10), PasswordCheck::Wrong);
    assert!(!reg.join_password_allowed(1, 200, 10));
    assert_eq!(reg.verify_game_password(1, 200, " secret ", 10), PasswordCheck::Authorized);
    assert!(reg.join_password_allowed(1, 200, 10));
    assert!(reg.join_password_allowed(1, 200, 129));
    assert!(!reg.join_password_allowed(1, 200, 130));
    // Clearing the password drops the authorisations of the room.
    reg.set_game_password(1, 100, "");
    reg.set_game_password(1, 100, "again");
    assert!(!reg.join_password_allowed(1, 200, 20));
}

#[test]
fn match_options_keep_oil_off() {
    let mut reg = GameRegistry::new();
    assert_eq!(reg.match_options(5), (true, true, false, false, false));
    reg.seed_from_join(1, 100, "Host", None);
    assert_eq!(
        reg.set_match_options(1, 200, Some(false), None, None, None, None),
        SettingsChange::HostOnly { admin: 100 }
    );
    assert_eq!(
        reg.set_match_options(1, 100, Some(false), None, Some(true), Some(true), None),
        SettingsChange::Applied
    );
    assert_eq!(reg.match_options(1), (false, true, false, true, false));
    assert_eq!(reg.set_match_options(9, 100, None, None, None, None, None), SettingsChange::NotFound);
}

#[test]
fn roster_of_a_room() {
    let mut reg = GameRegistry::new();
    let mut pool = DedicatedPool::new();
    match lobby_roster(&mut reg, &pool, 1, 5) {
        LobbyRoster::Missing { server_lost } => assert!(!server_lost),
        other => panic!("unexpected {:?}", other),
    }
    reg.seed_from_join(1, 100, "Host", None);
    let r = lobby_roster(&mut reg, &pool, 1, 5);
    assert_eq!(r.message(), "");
    match r {
        LobbyRoster::Room { admin, is_standby, password_protected, all_ready, players, options } => {
            assert_eq!(admin, 100);
            assert!(!is_standby && !password_protected);
            assert!(all_ready);
            assert!(options.special_abilities && !options.oil_economy);
            assert_eq!(players.len(), 1);
            assert_eq!(players[0].pid, 100);
            assert_eq!(players[0].name, "Host");
            assert!(players[0].is_host && players[0].ready && !players[0].is_ai);
        },
        other => panic!("unexpected {:?}", other),
    }
    // A room whose dedicated has left the pool is destroyed on sight.
    pool.sync_from_blaze_sessions(
        vec![BlazeSessionInfo {
            id: 7,
            peer: "10.0.0.5:1".to_string(),
            clnt: Some("RtsBlazeServer".to_string()),
            display_name: None,
            persona_id: None,
        }],
        1,
    );
    reg.ensure_standby_game(10099, "Gone", 99);
    let r = lobby_roster(&mut reg, &pool, 10099, 6);
    assert!(matches!(r, LobbyRoster::ServerLost));
    assert_eq!(r.message(), "Server connection lost.");
    assert!(!reg.contains_game(10099));
    let r = lobby_roster(&mut reg, &pool, 10099, 7);
    assert!(matches!(r, LobbyRoster::Missing { server_lost: true }));
    assert_eq!(r.message(), "Server connection lost.");
}

#[test]
fn chat_keeps_the_last_lines_cut_to_length() {
    let mut chat = LobbyChat::new();
    assert!(chat.lobby_chat(1).is_empty());
    let lines = chat.lobby_chat_push(1, "alice", "hello");
    assert_eq!(lines.len(), 1);
    assert_eq!((lines[0].user.as_str(), lines[0].text.as_str()), ("alice", "hello"));
    // Blank messages are ignored.
    assert_eq!(chat.lobby_chat_push(1, "bob", "   ").len(), 1);
    // Other rooms are separate.
    assert!(chat.lobby_chat(2).is_empty());
    let long_user = "u".repeat(40);
    let long_text = "t".repeat(250);
    let lines = chat.lobby_chat_push(1, &long_user, &long_text);
    assert_eq!(lines[1].user.chars().count(), 32);
    assert_eq!(lines[1].text.chars().count(), 200);
    for i in 0..100 {
        chat.lobby_chat_push(1, "x", &format!("m{}", i));
    }
    let lines = chat.lobby_chat(1);
    assert_eq!(lines.len(), 80);
    assert_eq!(lines[79].text, "m99");
    assert_eq!(lines[0].text, "m20");
}
