use indexmap::IndexMap;
use refracted::cnc::dedicated_pool::BlazeSessionInfo;
use refracted::cnc::game_state::custom_data::{auth_token_custom_data_blob, ensure_auth_token_in_custom_data, CNC_AUTH_TOKEN};
use refracted::cnc::game_state::GameRegistry;

fn blobs(v: &[(&str, &[u8])]) -> IndexMap<String, Vec<u8>> {
    v.iter().map(|(k, b)| (k.to_string(), b.to_vec())).collect()
}

#[test]
fn auth_token_is_added_once() {
    assert_eq!(auth_token_custom_data_blob(), CNC_AUTH_TOKEN.as_bytes().to_vec());
    let mut m = blobs(&[("XNNC", &[1, 2])]);
    ensure_auth_token_in_custom_data(&mut m);
    assert_eq!(m.get("AuthToken").unwrap(), &b"ABC123".to_vec());
    assert_eq!(m.keys().collect::<Vec<_>>(), vec!["XNNC", "AuthToken"]);
    let mut m = blobs(&[("AuthToken", b"zzz")]);
    ensure_auth_token_in_custom_data(&mut m);
    assert_eq!(m.get("AuthToken").unwrap(), &b"zzz".to_vec());
}

#[test]
fn new_rows_start_without_custom_data() {
    let mut reg = GameRegistry::new();
    reg.seed_from_join(1, 100, "Host", None);
    assert!(reg.get_game(1).unwrap().players[0].custom_data.is_empty());
    let row = reg.ensure_client_player(1, 300, "Guest", 100, "Host", None).unwrap();
    assert!(row.custom_data.is_empty());
}

#[test]
fn custom_data_goes_to_the_row_and_is_kept_on_copies() {
    let mut reg = GameRegistry::new();
    reg.seed_from_join(1, 100, "Host", None);
    assert!(reg.set_player_custom_data(1, 100, &blobs(&[("XNNC", &[1]), ("XSES", &[2])])));
    assert!(reg.set_player_custom_data(1, 100, &blobs(&[("XNNC", &[9])])));
    let cd = &reg.get_game(1).unwrap().players[0].custom_data;
    assert_eq!(cd.iter().map(|(k, v)| (k.as_str(), v.clone())).collect::<Vec<_>>(), vec![("XNNC", vec![9]), ("XSES", vec![2])]);
    assert!(!reg.set_player_custom_data(1, 555, &blobs(&[("XNNC", &[1])])));
    assert!(!reg.set_player_custom_data(2, 100, &blobs(&[("XNNC", &[1])])));
    // The host's row refreshed by a join keeps its custom data.
    let row = reg.ensure_client_player(1, 100, "", 100, "Host", None).unwrap();
    assert_eq!(row.custom_data.get("XSES"), Some(&vec![2]));
}

#[test]
fn gamemanager_custom_data_write_is_echoed_once() {
    let mut reg = GameRegistry::new();
    let (gid, pid, b) = reg.apply_set_player_custom_data(4, 100, blobs(&[("XNNC", &[7])]), 100, "Host", None);
    assert_eq!((gid, pid), (4, 100));
    assert_eq!(b.keys().collect::<Vec<_>>(), vec!["XNNC", "AuthToken"]);
    assert_eq!(reg.get_game(4).unwrap().players[0].custom_data.get("XNNC"), Some(&vec![7]));
    let last = reg.take_last_custom_data_change().unwrap();
    assert_eq!((last.0, last.1, last.2.len()), (4, 100, 2));
    assert!(reg.take_last_custom_data_change().is_none());
}

#[test]
fn gamemanager_attribute_write_is_echoed_once() {
    let mut reg = GameRegistry::new();
    let mut attrs = IndexMap::new();
    assert!(reg.apply_set_player_attributes(3, 100, attrs.clone(), 100, "Host", None).is_none());
    assert!(reg.take_last_attr_change().is_none());
    attrs.insert("_team".to_string(), "2".to_string());
    let (gid, pid, a) = reg.apply_set_player_attributes(3, 100, attrs, 100, "Host", None).unwrap();
    assert_eq!((gid, pid, a.get("_team").map(|s| s.as_str())), (3, 100, Some("2")));
    assert!(reg.contains_game(3));
    let last = reg.take_last_attr_change().unwrap();
    assert_eq!((last.0, last.1), (3, 100));
    assert!(reg.take_last_attr_change().is_none());
    // Writing the value the row already holds changes nothing.
    let host_team = reg.get_game(3).unwrap().players[0].attribs.get("_team").cloned().unwrap();
    assert!(!reg.set_player_attribute(3, 100, "_team", &host_team, 100, None));
    assert!(reg.set_player_attribute(3, 100, "_team", "5", 100, None));
}

#[test]
fn teardown_goes_to_the_persona_session_else_the_match_client() {
    let reg = GameRegistry::new();
    let sessions = vec![BlazeSessionInfo {
        id: 12,
        peer: "10.0.0.9:1".to_string(),
        clnt: None,
        display_name: None,
        persona_id: Some(77),
    }];
    assert_eq!(reg.client_local_game_teardown_session(&sessions, 5, 77, None), Some(12));
    assert_eq!(reg.client_local_game_teardown_session(&sessions, 5, 78, Some(40)), Some(40));
    assert_eq!(reg.client_local_game_teardown_session(&sessions, 0, 77, Some(40)), None);
    assert_eq!(reg.client_local_game_teardown_session(&sessions, 5, 0, Some(40)), None);
}
