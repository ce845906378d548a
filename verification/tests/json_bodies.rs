use refracted::cnc::game_state::room::{PasswordCheck, SettingsChange};
use refracted::cnc::queries::QueryError;
use refracted::cnc::requests::{cnc_body_request, CncBodyReply};
use refracted::cnc::routes::try_handle_cnc_post;
use refracted::cnc::forms::{player_attrs_body_of, player_attrs_request_bytes, PlayerAttrsError};
use refracted::cnc::game_state::{GamePhase, GameRegistry};
use refracted::cnc::queries::{
    parse_gid_pid_password_bytes, select_map_request_bytes, start_battle_request, StartBattle,
};
use refracted::cnc::shell::shell_theme_of_bytes;
use refracted::json::parse_json_body;

fn pairs(v: &[(&str, &str)]) -> Vec<(String, String)> {
    v.iter().map(|(k, x)| (k.to_string(), x.to_string())).collect()
}

#[test]
fn json_members_come_in_key_order_with_their_accessors() {
    let d = parse_json_body(br#"{"z": 1, "a": "x", "big": 18446744073709551615, "neg": -3, "f": 1.5, "o": {"k": 2}}"#)
        .unwrap();
    let keys: Vec<&str> = d.members.iter().map(|(k, _)| k.as_str()).collect();
    assert_eq!(keys, vec!["a", "big", "f", "neg", "o", "z"]);
    let leaf = |i: usize| d.members[i].1.scalar.clone();
    assert_eq!((leaf(0).as_str.as_deref(), leaf(0).as_i64), (Some("x"), None));
    assert_eq!((leaf(1).as_i64, leaf(1).as_u64), (None, Some(u64::MAX)));
    assert_eq!((leaf(2).as_str, leaf(2).as_i64, leaf(2).as_u64), (None, None, None));
    assert_eq!((leaf(3).as_i64, leaf(3).as_u64), (Some(-3), None));
    assert_eq!((leaf(5).as_i64, leaf(5).as_u64), (Some(1), Some(1)));
    let o = d.members[4].1.as_object.clone().unwrap();
    assert_eq!((o.len(), o[0].0.as_str(), o[0].1.as_i64), (1, "k", Some(2)));
    assert!(d.members[0].1.as_object.is_none());
}

#[test]
fn json_refusals_and_non_objects() {
    assert!(parse_json_body(b"not json").is_none());
    assert!(parse_json_body(b"").is_none());
    assert_eq!(parse_json_body(b"[1, 2]").unwrap().members.len(), 0);
    assert_eq!(parse_json_body(b"7").unwrap().members.len(), 0);
}

#[test]
fn player_attrs_body_from_json() {
    let d = parse_json_body(
        br#"{"gid": 4, "persona": 9, "team": 3, "faction": "EU", "attrs": {"start": 2, "isai": "1", "x": 1.5}}"#,
    )
    .unwrap();
    let b = player_attrs_body_of(&d);
    assert_eq!((b.gid, b.pid), (Some(4), Some(9)));
    assert_eq!(b.attrs, pairs(&[("isai", "1"), ("start", "2")]));
    assert!(b.scalars.contains(&("team".to_string(), "3".to_string())));
    // `pid` present but not an integer hides `persona`.
    let b = player_attrs_body_of(&parse_json_body(br#"{"pid": "x", "persona": 9}"#).unwrap());
    assert_eq!(b.pid, None);
    let b = player_attrs_body_of(&parse_json_body(br#"{"pid": 18446744073709551615}"#).unwrap());
    assert_eq!(b.pid, Some(-1));
}

#[test]
fn player_attrs_request_with_a_raw_body() {
    let mut reg = GameRegistry::new();
    reg.seed_from_join(1, 100, "Host", None);
    let reply = player_attrs_request_bytes(
        &mut reg,
        Some("gid=1"),
        br#"{"pid": 100, "faction": "GLA", "attrs": {"team": 2}}"#,
        100,
        None,
    )
    .unwrap();
    assert_eq!((reply.gid, reply.pid), (1, 100));
    assert_eq!(reply.attrs, pairs(&[("_faction", "GLA"), ("_team", "2")]));
    let r = player_attrs_request_bytes(&mut reg, Some("gid=1"), b"{broken", 100, None);
    assert!(matches!(r, Err(PlayerAttrsError::MissingAttrs)));
}

#[test]
fn select_map_with_a_raw_body() {
    let mut reg = GameRegistry::new();
    let r = select_map_request_bytes(&mut reg, None, br#"{"gid": 2, "level": "Levels/MP/Oasis"}"#).unwrap();
    assert_eq!((r.0, r.1.as_str()), (2, "Levels/MP/Oasis"));
    assert_eq!(reg.get_map_path(2), "Levels/MP/Oasis");
    assert!(select_map_request_bytes(&mut reg, None, br#"{"path": 5}"#).is_err());
}

#[test]
fn password_parameters_from_a_raw_body() {
    let (g, p, w) = parse_gid_pid_password_bytes(Some("gid=1"), br#"{"gid": 6, "pass": "abc", "pwd": "zzz"}"#, 55);
    assert_eq!((g, p, w.as_str()), (6, 55, "abc"));
    let (g, p, w) = parse_gid_pid_password_bytes(Some("gid=1&pid=3&password=q"), b"oops", 0);
    assert_eq!((g, p, w.as_str()), (1, 3, "q"));
}

#[test]
fn shell_theme_from_bytes() {
    let t = shell_theme_of_bytes(br#"{"theme": "Alpha"}"#);
    assert_eq!((t.0.as_str(), t.1.as_str()), ("classic", "classic"));
    let t = shell_theme_of_bytes(br#"{"theme": "classic", "defaultTheme": "aurora"}"#);
    assert_eq!((t.0.as_str(), t.1.as_str()), ("classic", "aurora"));
    let t = shell_theme_of_bytes(b"  cnc-alpha \n");
    assert_eq!((t.0.as_str(), t.1.as_str()), ("classic", "classic"));
    let t = shell_theme_of_bytes(&[0xff, 0xfe]);
    assert_eq!((t.0.as_str(), t.1.as_str()), ("aurora", "aurora"));
    let t = shell_theme_of_bytes(b"[]");
    assert_eq!((t.0.as_str(), t.1.as_str()), ("aurora", "aurora"));
}

#[test]
fn start_battle_from_a_raw_body() {
    let mut reg = GameRegistry::new();
    reg.seed_from_join(3, 100, "Host", None);
    let (gid, r) = start_battle_request(&mut reg, br#"{"gid": 3}"#, 100);
    assert_eq!(gid, 3);
    assert!(matches!(r, StartBattle::Started { .. }));
    assert_eq!(reg.get_phase(3), GamePhase::InGame);
    let (gid, r) = start_battle_request(&mut reg, b"garbage", 100);
    assert_eq!(gid, 1);
    assert!(matches!(r, StartBattle::NotAllReady { admin: 100 }));
}

#[test]
fn routed_requests_with_bodies() {
    let mut reg = GameRegistry::new();
    reg.seed_from_join(4, 100, "Host", None);
    let req = try_handle_cnc_post("POST", "/cnc/game-password?gid=4").unwrap();
    let r = cnc_body_request(&mut reg, &req, br#"{"pid": 100, "password": " s3cret "}"#, 100, None, 0, 1000);
    assert!(matches!(r, CncBodyReply::GamePassword(Ok((4, 100, SettingsChange::Applied)))));
    let req = try_handle_cnc_post("POST", "/cnc/verify-game-password").unwrap();
    let r = cnc_body_request(&mut reg, &req, br#"{"gid": 4, "persona": 7, "pwd": "s3cret"}"#, 100, None, 0, 1000);
    assert!(matches!(r, CncBodyReply::VerifyGamePassword(Ok((4, 7, PasswordCheck::Authorized)))));
    let r = cnc_body_request(&mut reg, &req, br#"{"pwd": "s3cret"}"#, 100, None, 0, 1000);
    assert!(matches!(r, CncBodyReply::VerifyGamePassword(Err(QueryError::GidRequired))));
    let req = try_handle_cnc_post("POST", "/cnc/shell-theme").unwrap();
    let r = cnc_body_request(&mut reg, &req, br#"{"theme": "alpha"}"#, 100, None, 0, 1000);
    assert!(matches!(r, CncBodyReply::ShellTheme { ref theme, .. } if theme == "classic"));
    let req = try_handle_cnc_post("GET", "/cnc/game-list").unwrap();
    assert!(matches!(cnc_body_request(&mut reg, &req, b"{}", 100, None, 0, 1000), CncBodyReply::Other));
}
