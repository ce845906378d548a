use indexmap::IndexMap;
use refracted::cnc::create_game::{faction_from_player, roster_entry, uuid_to_guid_bytes};
use refracted::cnc::dedicated_pool::{BlazeSessionInfo, DedicatedPool, DedicatedPoolState};
use refracted::cnc::game_state::lobby_attrs::{
    attrs_mark_ai, default_general_for_faction, general_for_unknown_faction, is_alpha_tutorial_map,
    startpoint_from_attrs, synthetic_ai_persona, tutorial_general_for_faction, GENERAL_APA_CLASSIC,
    GENERAL_EU_CLASSIC, GENERAL_EU_TUTORIAL, GENERAL_GLA_TUTORIAL,
};
use refracted::cnc::game_state::{uuid_v4_string, GamePhase, GameRegistry};
use refracted::cnc::lobby::{
    leave_gameroom, leave_gameroom_ex, purge_persona_from_lobbies, reclaim_after_empty_humans,
    resolve_leave_persona, LeaveOutcome,
};

fn attrs(pairs: &[(&str, &str)]) -> IndexMap<String, String> {
    let mut m = IndexMap::new();
    for (k, v) in pairs {
        m.insert(k.to_string(), v.to_string());
    }
    m
}

fn attr(reg: &GameRegistry, gid: i64, row: usize, key: &str) -> Option<String> {
    reg.get_game(gid).unwrap().players[row].attribs.get(key).cloned()
}

fn server_session(id: u64) -> BlazeSessionInfo {
    BlazeSessionInfo {
        id,
        peer: "10.0.0.5:40000".to_string(),
        clnt: Some("RtsBlazeServer".to_string()),
        display_name: None,
        persona_id: None,
    }
}

#[test]
fn general_tables() {
    assert!(is_alpha_tutorial_map("Levels/SP/Alpha_Tutorial/Alpha_Tutorial"));
    assert!(is_alpha_tutorial_map("levels/sp/ALPHA_TUTORIAL"));
    assert!(!is_alpha_tutorial_map("Levels/MP/Oasis"));
    assert_eq!(tutorial_general_for_faction(" gla "), GENERAL_GLA_TUTORIAL);
    assert_eq!(tutorial_general_for_faction("USA"), GENERAL_EU_TUTORIAL);
    assert_eq!(default_general_for_faction("eu", "x"), GENERAL_EU_CLASSIC);
    assert_eq!(default_general_for_faction("China", "x"), GENERAL_APA_CLASSIC);
    assert_eq!(default_general_for_faction("bogus", "fallback"), "fallback");
    assert_eq!(general_for_unknown_faction(""), GENERAL_EU_TUTORIAL);
    assert_eq!(general_for_unknown_faction("Levels/MP/Oasis"), GENERAL_APA_CLASSIC);
    assert_eq!(synthetic_ai_persona(3), -1003);
    assert_eq!(synthetic_ai_persona(0), -1001);
    assert_eq!(synthetic_ai_persona(-4), -1001);
}

#[test]
fn attribute_readers() {
    assert!(attrs_mark_ai(&attrs(&[("_isai", "TRUE")])));
    assert!(attrs_mark_ai(&attrs(&[("_isai", "1")])));
    assert!(!attrs_mark_ai(&attrs(&[("_isai", "0")])));
    assert!(!attrs_mark_ai(&attrs(&[])));
    assert_eq!(startpoint_from_attrs(&attrs(&[("_startpoint", "4")])), 4);
    assert_eq!(startpoint_from_attrs(&attrs(&[("_startpoint", " 4")])), 0);
    assert_eq!(startpoint_from_attrs(&attrs(&[("_startpoint", "x")])), 0);
    assert_eq!(faction_from_player(&attrs(&[("_faction", "esc")]), false), 3);
    assert_eq!(faction_from_player(&attrs(&[("_faction", "bogus")]), true), 4);
    assert_eq!(faction_from_player(&attrs(&[]), false), 2);
}

#[test]
fn join_seeds_a_host_row_with_lobby_writes() {
    let mut reg = GameRegistry::new();
    reg.seed_from_join(1, 100, "Host", None);
    let g = reg.get_game(1).unwrap();
    assert_eq!(g.name, "Skirmish");
    assert_eq!(g.host_persona, 100);
    assert_eq!(g.phase, GamePhase::Resetable);
    assert_eq!(g.players.len(), 1);
    assert_eq!(g.players[0].display_name, "Host");
    assert_eq!(attr(&reg, 1, 0, "_faction").as_deref(), Some("EU"));
    assert_eq!(attr(&reg, 1, 0, "_general").as_deref(), Some(GENERAL_EU_TUTORIAL));
    assert_eq!(g.uuid.len(), 36);
    // A second seed leaves the row alone.
    let uuid = g.uuid.clone();
    reg.seed_from_join(1, 200, "Other", None);
    assert_eq!(reg.get_game(1).unwrap().uuid, uuid);
    assert_eq!(reg.get_game(1).unwrap().host_persona, 100);
}

#[test]
fn lobby_writes_reach_the_host_row_and_make_ai_rows() {
    let mut reg = GameRegistry::new();
    reg.seed_from_join(1, 100, "Host", None);
    reg.set_pending_player_attrs(1, 0, attrs(&[("_faction", "GLA"), ("_team", "2")]), 100, None);
    let g = reg.get_game(1).unwrap();
    assert_eq!(g.players[0].team, 2);
    assert_eq!(attr(&reg, 1, 0, "_faction").as_deref(), Some("GLA"));
    assert_eq!(attr(&reg, 1, 0, "_general").as_deref(), Some(GENERAL_GLA_TUTORIAL));
    let written = reg.pending_player_attrs(1, 0).unwrap();
    assert_eq!(written, vec![("_faction".to_string(), "GLA".to_string()), ("_team".to_string(), "2".to_string())]);
    // An AI row posted without a persona.
    reg.set_pending_player_attrs(1, 0, attrs(&[("_isai", "1"), ("_startpoint", "3"), ("_faction", "USA")]), 100, None);
    let g = reg.get_game(1).unwrap();
    assert_eq!(g.players.len(), 2);
    let ai = &g.players[1];
    assert_eq!(ai.persona_id, -1003);
    assert!(ai.is_ai);
    assert_eq!(ai.slot, 2);
    assert_eq!(ai.team, 2);
    assert_eq!(ai.display_name, "AI");
    assert_eq!(attr(&reg, 1, 1, "_startpoint").as_deref(), Some("3"));
    assert_eq!(attr(&reg, 1, 1, "_general").as_deref(), Some(GENERAL_EU_TUTORIAL));
    assert!(reg.pending_player_attrs(1, -1003).is_some());
    // The host's writes are untouched by the AI write.
    assert_eq!(reg.pending_player_attrs(1, 0).unwrap().len(), 2);
    // Empty writes change nothing.
    reg.set_pending_player_attrs(1, 0, attrs(&[]), 100, None);
    assert_eq!(reg.get_game(1).unwrap().players.len(), 2);
}

#[test]
fn startpoints_resolve_flush_and_clamp() {
    let mut reg = GameRegistry::new();
    reg.seed_from_join(1, 100, "Host", None);
    reg.set_pending_player_attrs(1, 100, attrs(&[("_startpoint", "2")]), 100, None);
    assert_eq!(reg.get_game(1).unwrap().players[0].slot, 1);
    let host_row = &reg.get_game(1).unwrap().players[0];
    assert_eq!(reg.effective_startpoint_for_player(1, host_row), 2);
    reg.set_pending_player_attrs(1, 0, attrs(&[("_isai", "1"), ("_startpoint", "3")]), 100, None);
    reg.set_pending_player_attrs(1, -5, attrs(&[("_isai", "1"), ("_startpoint", "3")]), 100, None);
    assert_eq!(reg.get_game(1).unwrap().players.len(), 3);
    reg.resolve_startpoints_before_create(1);
    let sps: Vec<String> = (0..3).map(|i| attr(&reg, 1, i, "_startpoint").unwrap()).collect();
    assert_eq!(sps, vec!["2", "3", "1"]);
    assert_eq!(reg.get_game(1).unwrap().players[2].slot, 0);
    reg.clamp_lobby_startpoints(1, 2);
    let sps: Vec<String> = (0..3).map(|i| attr(&reg, 1, i, "_startpoint").unwrap()).collect();
    assert_eq!(sps, vec!["2", "0", "1"]);
    reg.flush_lobby_startpoints(1);
    for i in 0..3 {
        assert_eq!(attr(&reg, 1, i, "_startpoint").as_deref(), Some("0"));
    }
    assert_eq!(reg.pending_player_attrs(1, 100).unwrap()[0].1, "0");
}

#[test]
fn map_selection_clamps_picks() {
    let mut reg = GameRegistry::new();
    reg.seed_from_join(1, 100, "Host", None);
    reg.set_pending_player_attrs(1, 100, attrs(&[("_startpoint", "5")]), 100, None);
    reg.set_map_selection(1, "Levels/MP/Oasis", 4);
    let g = reg.get_game(1).unwrap();
    assert_eq!(g.map_path, "Levels/MP/Oasis");
    assert_eq!(g.start_count, 4);
    assert_eq!(attr(&reg, 1, 0, "_startpoint").as_deref(), Some("0"));
    assert_eq!(reg.get_map_path(1), "Levels/MP/Oasis");
}

#[test]
fn create_game_request_from_the_roster() {
    let mut reg = GameRegistry::new();
    reg.seed_from_join(1, 100, "Host", None);
    reg.set_map_selection(1, "Levels/MP/Oasis", 4);
    reg.set_pending_player_attrs(1, 0, attrs(&[("_faction", "GLA"), ("_team", "2"), ("_startpoint", "1")]), 100, None);
    let req = reg.prepare_create_game(1, 100, "Host", None).unwrap();
    assert_eq!(req.map_name, "Oasis");
    assert_eq!(req.dir_path, "Levels/MP/");
    assert_eq!(req.options, 0x61);
    assert_eq!(req.roster.len(), 1);
    let p = &req.roster[0];
    assert_eq!(p.player_id, 100);
    assert_eq!(p.faction, 4);
    assert_eq!(p.team, 2);
    assert_eq!(p.start_point, 1);
    assert_eq!(p.general_id, 3463861546);
    assert!(p.enable_skill_tree);
    assert_eq!(p.allegiance_levels.len(), 17);
    let uuid = reg.get_game(1).unwrap().uuid.clone();
    assert_eq!(req.game_id, uuid_to_guid_bytes(&uuid));
    // The lobby picks are back to random afterwards.
    assert_eq!(attr(&reg, 1, 0, "_startpoint").as_deref(), Some("0"));
    assert!(reg.prepare_create_game(2, 100, "Host", None).is_some());
    let mut empty = GameRegistry::new();
    empty.ensure_standby_game(10007, "DEDI", 7);
    assert!(empty.create_game_request(10007).is_none());
}

#[test]
fn roster_entry_defaults() {
    let mut reg = GameRegistry::new();
    reg.seed_from_join(1, 100, "Host", None);
    let row = &reg.get_game(1).unwrap().players[0];
    let e = roster_entry(row, 0);
    assert_eq!(e.start_point, 1);
    assert_eq!(e.team, 1);
    assert_eq!(e.faction, 3);
    let e = roster_entry(row, 6);
    assert_eq!(e.start_point, 6);
}

#[test]
fn guid_bytes_of_uuid_text() {
    let b = [0x12u8, 0x34, 0x56, 0x78, 0x9a, 0xbc, 0x4e, 0xf0, 0x81, 0x23, 0x45, 0x67, 0x89, 0xab, 0xcd, 0xef];
    let text = uuid_v4_string(b);
    assert_eq!(text, "12345678-9abc-4ef0-8123-456789abcdef");
    assert_eq!(uuid_to_guid_bytes(&text), b);
    assert_eq!(uuid_to_guid_bytes("not a uuid"), [0u8; 16]);
    assert_eq!(uuid_to_guid_bytes("12345678-9ABC-4EF0-8123-456789ABCDEF"), b);
}

#[test]
fn options_follow_the_host_lobby() {
    let mut reg = GameRegistry::new();
    reg.seed_from_join(1, 100, "Host", None);
    reg.ensure_standby_game(10007, "DEDI", 7);
    reg.adopt_host_lobby_match_options_into(10007, 100);
    assert_eq!(reg.match_options(10007), (true, true, false, false, false));
    reg.set_pending_player_attrs(1, 0, attrs(&[("_faction", "ESC")]), 100, None);
    reg.adopt_host_lobby_pending_attrs_into(10007, 100, None);
    assert_eq!(reg.pending_player_attrs(10007, 0).unwrap(), vec![("_faction".to_string(), "ESC".to_string())]);
}

#[test]
fn leave_resolution_rules() {
    assert_eq!(resolve_leave_persona(&vec![5, 6], 6, 0, false), Some(6));
    assert_eq!(resolve_leave_persona(&vec![5, 6], 9, 5, false), Some(5));
    assert_eq!(resolve_leave_persona(&vec![5], 9, 8, false), Some(5));
    assert_eq!(resolve_leave_persona(&vec![5, 6], 0, 0, true), Some(0));
    assert_eq!(resolve_leave_persona(&vec![5, 6], 9, 0, false), Some(9));
    assert_eq!(resolve_leave_persona(&vec![5, 6], 0, 8, false), Some(8));
    assert_eq!(resolve_leave_persona(&vec![5, 6], 0, 0, false), None);
}

#[test]
fn last_human_leaving_hands_the_room_back() {
    let mut reg = GameRegistry::new();
    let mut pool = DedicatedPool::new();
    reg.seed_from_join(1, 100, "Host", None);
    let res = leave_gameroom(&mut reg, &mut pool, 1, 100, 0, &vec![], 50);
    assert_eq!(res.teardown, Some(100));
    match res.outcome {
        LeaveOutcome::Reclaimed { reclaim, pid } => {
            assert_eq!(pid, Some(100));
            assert!(!reclaim.coalesced);
            assert_eq!(reclaim.dedicated, None);
        },
        other => panic!("unexpected {other:?}"),
    }
    let g = reg.get_game(1).unwrap();
    assert!(g.is_standby);
    assert!(g.players.is_empty());
    let res = leave_gameroom_ex(&mut reg, &mut pool, 99, 100, false, 0, &vec![], 50);
    assert_eq!(res.outcome, LeaveOutcome::NoGame { pid: None });
}

#[test]
fn reclaim_sends_the_dedicated_back_to_recycling() {
    let mut reg = GameRegistry::new();
    let mut pool = DedicatedPool::new();
    pool.sync_from_blaze_sessions(vec![server_session(7)], 10);
    let (_, _, gid) = pool.on_register_creator(7, "DEDI-7", 10).unwrap();
    reg.ensure_standby_game(gid, "DEDI-7", 7);
    let names = vec![(7u64, "10.0.0.5".to_string())];
    let out = reclaim_after_empty_humans(&mut reg, &mut pool, gid, &names, 20);
    assert_eq!(out.dedicated, Some(7));
    assert!(!out.coalesced);
    assert_eq!(pool.get_entry(7).unwrap().state, DedicatedPoolState::Recycling);
    assert_eq!(reg.game_name(gid), "DEDI-7");
    // Standby room with no human: a leave reclaims it too (and coalesces).
    let res = leave_gameroom_ex(&mut reg, &mut pool, gid, 0, false, 55, &names, 21);
    assert_eq!(res.teardown, Some(55));
    assert!(matches!(res.outcome, LeaveOutcome::Reclaimed { pid: None, .. }));
}

#[test]
fn purge_takes_a_persona_out_of_every_room() {
    let mut reg = GameRegistry::new();
    let mut pool = DedicatedPool::new();
    reg.seed_from_join(1, 100, "Host", None);
    reg.seed_from_join(2, 100, "Host", None);
    let results = purge_persona_from_lobbies(&mut reg, &mut pool, 100, 0, &vec![], 5);
    assert_eq!(results.len(), 2);
    assert!(reg.gids_for_human_persona(100).is_empty());
    assert!(purge_persona_from_lobbies(&mut reg, &mut pool, 0, 0, &vec![], 5).is_empty());
}
