use refracted::cnc::forms::{parse_player_attrs_form, player_attrs_request, PlayerAttrsBody, PlayerAttrsError};
use refracted::cnc::game_state::{GamePhase, GameRegistry};

fn pairs(v: &[(&str, &str)]) -> Vec<(String, String)> {
    v.iter().map(|(k, x)| (k.to_string(), x.to_string())).collect()
}

fn entries(m: &indexmap::IndexMap<String, String>) -> Vec<(String, String)> {
    m.iter().map(|(k, v)| (k.clone(), v.clone())).collect()
}

#[test]
fn query_keys_map_onto_lobby_attributes() {
    let (gid, pid, attrs) =
        parse_player_attrs_form(Some("gid=3&pid=7&faction=GLA&start=2&bogus=1&team=%32&noequals"), None);
    assert_eq!((gid, pid), (3, 7));
    assert_eq!(entries(&attrs), pairs(&[("_faction", "GLA"), ("_startpoint", "2"), ("_team", "2")]));
}

#[test]
fn bad_numbers_fall_back_to_defaults() {
    let (gid, pid, attrs) = parse_player_attrs_form(Some("gid=x&persona=&_isai=1"), None);
    assert_eq!((gid, pid), (1, 0));
    assert_eq!(entries(&attrs), pairs(&[("_isai", "1")]));
    let (gid, pid, _) = parse_player_attrs_form(None, None);
    assert_eq!((gid, pid), (1, 0));
}

#[test]
fn body_fields_follow_the_query_in_fixed_key_order() {
    let body = PlayerAttrsBody {
        gid: Some(5),
        pid: None,
        scalars: pairs(&[("faction", "EU"), ("_faction", "USA"), ("team", "4"), ("gid", "5")]),
        attrs: pairs(&[("isai", "1"), ("difficulty", "hard"), ("name", "x")]),
    };
    let (gid, pid, attrs) = parse_player_attrs_form(Some("pid=9&general=42"), Some(&body));
    assert_eq!((gid, pid), (5, 9));
    assert_eq!(
        entries(&attrs),
        pairs(&[("_general", "42"), ("_faction", "EU"), ("_team", "4"), ("_isai", "1"), ("_difficulty", "hard")])
    );
}

#[test]
fn request_without_attributes_is_refused() {
    let mut reg = GameRegistry::new();
    reg.seed_from_join(1, 100, "Host", None);
    let r = player_attrs_request(&mut reg, Some("gid=1&pid=100"), None, 100, None);
    assert!(matches!(r, Err(PlayerAttrsError::MissingAttrs)));
    assert!(reg.pending_player_attrs(1, 100).is_none());
}

#[test]
fn request_writes_and_probes() {
    let mut reg = GameRegistry::new();
    reg.seed_from_join(1, 100, "Host", None);
    reg.set_map_path(1, "Levels/MP/Oasis");
    let reply = player_attrs_request(&mut reg, Some("gid=1&faction=None&team=0"), None, 100, None).unwrap();
    assert_eq!((reply.gid, reply.pid), (1, 0));
    assert_eq!(reply.attrs, pairs(&[("_faction", "None"), ("_team", "0")]));
    let p = &reply.probe;
    assert!(!p.ok);
    assert_eq!(p.map_path, "Levels/MP/Oasis");
    assert_eq!(p.players.len(), 1);
    let host = &p.players[0];
    assert_eq!(host.persona_id, 100);
    assert_eq!(host.faction, "None");
    assert_eq!(host.team, 0);
    assert!(!host.ok);
    assert!(host.notes.contains(&"faction missing/None".to_string()));
    assert!(host.notes.contains(&"team < 1".to_string()));
    assert!(p.issues.contains(&"player 100 faction invalid".to_string()));
    assert!(p.issues.contains(&"player 100 team=0".to_string()));
    assert_eq!(p.pending, vec![(0, pairs(&[("_faction", "None"), ("_team", "0")]))]);
}

#[test]
fn probe_of_a_missing_game() {
    let reg = GameRegistry::new();
    let p = reg.player_data_probe(42);
    assert!(!p.ok);
    assert_eq!(p.gid, 42);
    assert_eq!(p.map_path, "");
    assert_eq!(p.phase, GamePhase::Resetable);
    assert!(p.players.is_empty());
    assert!(p.pending.is_empty());
    assert_eq!(
        p.issues,
        vec![
            "map_path empty (lobby /cnc/select-map not applied)".to_string(),
            "no CncGame yet (attrs pending only)".to_string()
        ]
    );
    assert!(p.enable_special_abilities && p.enable_tech_tree);
    assert!(!p.enable_oil_economy && !p.enable_infinite_resource_centers && !p.enable_unlock_full_faction_roster);
}

#[test]
fn probe_of_a_sound_roster() {
    let mut reg = GameRegistry::new();
    reg.seed_from_join(1, 100, "Host", None);
    reg.set_map_path(1, "Levels/MP/Oasis");
    let r = player_attrs_request(&mut reg, Some("gid=1&pid=100&faction=GLA&team=1&startpoint=0"), None, 100, None)
        .unwrap();
    let p = &r.probe;
    assert!(p.issues.is_empty());
    assert!(p.ok);
    let host = &p.players[0];
    assert!(host.ok);
    assert_eq!(host.startpoint, 0);
    assert_eq!(host.notes, vec!["startpoint random".to_string()]);
    assert_eq!(host.name, "Host");
}
