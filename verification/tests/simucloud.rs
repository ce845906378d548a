use refracted::cnc::create_game::u32_attr_exec;
use refracted::msgsystem::negotiation::PROTOCOL_VERSION_TYPE_ID;
use refracted::msgsystem::simucloud::{
    allegiance_for_team, create_game_options, encode_create_game_envelope, encode_create_game_payload,
    parse_faction_code, parse_type_id_for_suffix, protocol_version_frame, split_map_path, PlayerInfo,
    CREATE_GAME_OPTIONS_ALLOW_RECONNECT, CREATE_GAME_OPTIONS_ENABLE_OIL_ECONOMY,
    CREATE_GAME_OPTIONS_ENABLE_SPECIAL_ABILITIES, CREATE_GAME_OPTIONS_ENABLE_TECH_TREE,
    CREATE_GAME_OPTIONS_INFINITE_RESOURCE_CENTERS, F32_MINUS_ONE_BITS, F32_PLUS_ONE_BITS,
};
use refracted::msgsystem::wire::WireWriter;

fn sample_player(id: u64, faction: i32, team: i32) -> PlayerInfo {
    PlayerInfo {
        player_id: id,
        reconnect: false,
        faction,
        general_id: 0,
        team,
        start_point: 1,
        difficulty: 0,
        is_ai: false,
        allegiance_levels: vec![],
        skill_tree_unlocks: vec![],
        consumable_player_power: 0,
        enable_skill_tree: false,
    }
}

#[test]
fn faction_codes_match_native_enum() {
    assert_eq!(parse_faction_code("USA"), Some(1));
    assert_eq!(parse_faction_code("usa"), Some(1));
    assert_eq!(parse_faction_code("APA"), Some(2));
    assert_eq!(parse_faction_code("China"), Some(2));
    assert_eq!(parse_faction_code("ESC"), Some(3));
    assert_eq!(parse_faction_code("EU"), Some(3));
    assert_eq!(parse_faction_code("GLA"), Some(4));
    assert_eq!(parse_faction_code("None"), Some(0));
    assert_eq!(parse_faction_code("4"), Some(4));
    assert_eq!(parse_faction_code("bogus"), None);
}

#[test]
fn faction_codes_edge_cases() {
    assert_eq!(parse_faction_code("  gla  "), Some(4));
    assert_eq!(parse_faction_code(""), None);
    assert_eq!(parse_faction_code("   "), None);
    assert_eq!(parse_faction_code("5"), None);
    assert_eq!(parse_faction_code("-1"), None);
    assert_eq!(parse_faction_code("chi"), Some(2));
}

#[test]
fn allegiance_marks_team_slot() {
    let a = allegiance_for_team(2);
    assert_eq!(a.len(), 17);
    assert_eq!(f32::from_bits(a[0]), 0.0);
    assert_eq!(f32::from_bits(a[1]), -1.0);
    assert_eq!(f32::from_bits(a[2]), 1.0);
    assert_eq!(f32::from_bits(a[3]), -1.0);
    assert_eq!(a[2], F32_PLUS_ONE_BITS);
    assert_eq!(a[16], F32_MINUS_ONE_BITS);
}

#[test]
fn split_map_path_splits_parent_dir() {
    let (map, dir) = split_map_path("levels/SP/Alpha_Tutorial/Alpha_Tutorial");
    assert_eq!(map, "Alpha_Tutorial");
    assert_eq!(dir, "levels/SP/Alpha_Tutorial/");
}

#[test]
fn split_map_path_matches_retail_splitpath() {
    let (map, dir) = split_map_path("Levels/SP/Alpha_Tutorial/Alpha_Tutorial");
    assert_eq!(map, "Alpha_Tutorial");
    assert_eq!(dir, "Levels/SP/Alpha_Tutorial/");
}

#[test]
fn split_map_path_without_directory() {
    let (map, dir) = split_map_path("Oasis");
    assert_eq!(map, "Oasis");
    assert_eq!(dir, "");
    let (map, dir) = split_map_path("Levels\\MP\\Oasis");
    assert_eq!(map, "Oasis");
    assert_eq!(dir, "Levels/MP/");
}

#[test]
fn create_game_encodes_map_first() {
    let gid = [0u8; 16];
    let payload = encode_create_game_payload(
        &gid,
        "levels/SP/Alpha_Tutorial/Alpha_Tutorial",
        "levels/SP/Alpha_Tutorial",
        &[sample_player(1201618778, 1, 0)],
        CREATE_GAME_OPTIONS_ALLOW_RECONNECT,
    );
    assert!(payload.len() > 40);
    assert_eq!(payload[0], 1);
}

#[test]
fn create_game_options_ors_unused_lobby_bits() {
    assert_eq!(create_game_options(false, false, false, false), CREATE_GAME_OPTIONS_ALLOW_RECONNECT);
    assert_eq!(
        create_game_options(true, false, false, false),
        CREATE_GAME_OPTIONS_ALLOW_RECONNECT | CREATE_GAME_OPTIONS_ENABLE_TECH_TREE
    );
    assert_eq!(
        create_game_options(false, true, false, false),
        CREATE_GAME_OPTIONS_ALLOW_RECONNECT | CREATE_GAME_OPTIONS_ENABLE_SPECIAL_ABILITIES
    );
    assert_eq!(
        create_game_options(false, false, true, false),
        CREATE_GAME_OPTIONS_ALLOW_RECONNECT | CREATE_GAME_OPTIONS_ENABLE_OIL_ECONOMY
    );
    assert_eq!(
        create_game_options(true, true, true, false),
        CREATE_GAME_OPTIONS_ALLOW_RECONNECT
            | CREATE_GAME_OPTIONS_ENABLE_TECH_TREE
            | CREATE_GAME_OPTIONS_ENABLE_SPECIAL_ABILITIES
            | CREATE_GAME_OPTIONS_ENABLE_OIL_ECONOMY
    );
    assert_eq!(
        create_game_options(false, false, false, true),
        CREATE_GAME_OPTIONS_ALLOW_RECONNECT | CREATE_GAME_OPTIONS_INFINITE_RESOURCE_CENTERS
    );
}

#[test]
fn create_game_options_enum_uses_rts_typecode() {
    let gid = [0u8; 16];
    let both = encode_create_game_payload(
        &gid,
        "Oasis",
        "Levels/MP/",
        &[sample_player(1201618778, 1, 0)],
        create_game_options(true, true, true, false),
    );
    let off = encode_create_game_payload(
        &gid,
        "Oasis",
        "Levels/MP/",
        &[sample_player(1201618778, 1, 0)],
        create_game_options(false, false, false, false),
    );
    assert_eq!(&both[both.len() - 5..], &[9, 0xE1, 0, 0, 0]);
    assert_eq!(&off[off.len() - 5..], &[9, 0x01, 0, 0, 0]);
}

#[test]
fn create_game_envelope_wraps_payload() {
    let gid = [0u8; 16];
    let env = encode_create_game_envelope(
        9,
        &gid,
        "Alpha_Tutorial",
        "levels/SP/Alpha_Tutorial/",
        &[sample_player(1201618778, 1, 0)],
        CREATE_GAME_OPTIONS_ALLOW_RECONNECT,
    );
    assert_eq!(env.type_id, 9);
    assert!(env.sender.is_empty());
    assert!(env.receiver.is_empty());
    let bytes = env.write();
    assert!(bytes.len() > env.payload.len() + 12);
}

#[test]
fn parse_ptm_finds_create_game_suffix() {
    let mut w = WireWriter::new();
    w.write_u8(1);
    w.write_var_i32(2);
    w.write_u16(7);
    w.write_string(Some("Rts.CnC.Messages.SimuCloud.AddPlayers"));
    w.write_u16(9);
    w.write_string(Some("Rts.CnC.Messages.SimuCloud.CreateGame"));
    let id = parse_type_id_for_suffix(&w.into_bytes(), "CreateGame").unwrap();
    assert_eq!(id, 9);
}

#[test]
fn parse_ptm_skips_null_type_name_entries() {
    let mut w = WireWriter::new();
    w.write_u8(1);
    w.write_var_i32(2);
    w.write_u16(99);
    w.write_u8(0);
    w.write_u16(9);
    w.write_string(Some("Rts.CnC.Messages.SimuCloud.CreateGame"));
    let id = parse_type_id_for_suffix(&w.into_bytes(), "CreateGame").unwrap();
    assert_eq!(id, 9);
}

#[test]
fn parse_ptm_retail_layout_and_misses() {
    // Retail rows: `01 {id} 00 01 {ref} 01` right before the type name.
    let mut p: Vec<u8> = vec![0xAA, 0xBB];
    p.extend_from_slice(&[1, 4, 0, 1, 7, 1]);
    p.extend_from_slice(b"Rts.CnC.Messages.SimuCloud.GameReady,Assembly");
    assert_eq!(parse_type_id_for_suffix(&p, "GameReady"), Some(4));
    assert_eq!(parse_type_id_for_suffix(&p, "CreateGame"), None);
    // A longer name that only starts with the suffix does not match.
    let mut w = WireWriter::new();
    w.write_u8(1);
    w.write_var_i32(1);
    w.write_u16(3);
    w.write_string(Some("Rts.CnC.Messages.SimuCloud.CreateGameFailure"));
    assert_eq!(parse_type_id_for_suffix(&w.into_bytes(), "CreateGame"), None);
    assert_eq!(parse_type_id_for_suffix(&[], "CreateGame"), None);
}

#[test]
fn protocol_version_frame_matches_retail_client() {
    let frame = protocol_version_frame();
    assert_eq!(frame.type_id, PROTOCOL_VERSION_TYPE_ID);
    assert_eq!(frame.payload.len(), 7);
    let version = u32::from_le_bytes(frame.payload[0..4].try_into().unwrap());
    assert_eq!(version, 2, "ClientChannelDescriptor metadata <Version> is 2");
}

#[test]
fn parses_rts_general_server_id_hash() {
    // APA_ClassicGeneral ServerId / GeneralsToLoad GeneralID
    let mut m = indexmap::IndexMap::new();
    m.insert("_general".to_string(), "2914080600".to_string());
    assert_eq!(u32_attr_exec(&m, "_general"), Some(2914080600));
    // APA_AtomicGeneral exceeds i32::MAX — must not use i32 parse
    m.insert("_general".to_string(), "3919700239".to_string());
    assert_eq!(u32_attr_exec(&m, "_general"), Some(3919700239));
}
