use vhm_core::leveldb_reader::{
    find_uuid_in, format_riot_id, is_leveldb_candidate_file, json_array_prefix, looks_like_account_id,
    looks_like_tag_line, parse_leveldb_bytes, role_player_name, LevelDbBattleListResult, SeenKeys,
};

#[test]
fn well_formed_battle_lists_are_read_as_json() {
    let bytes = br#"xxacloshighlight_battle_list_12345 [{"matchId":"m1","kills":3,"deaths":1,"assists":2}]"#;
    let mut result = LevelDbBattleListResult::new();
    let mut seen = SeenKeys::new();
    parse_leveldb_bytes(bytes, &mut result, &mut seen);
    assert_eq!(result.battles.len(), 1);
    let battle = &result.battles[0];
    assert_eq!(battle.account_id, "12345");
    assert_eq!(battle.match_id.as_deref(), Some("m1"));
    assert_eq!(battle.kda.as_deref(), Some("3/1/2"));
    assert_eq!(battle.raw_json, r#"{"assists":2,"deaths":1,"kills":3,"matchId":"m1"}"#);
    assert_eq!(result.bad_record_count, 0);
}

#[test]
fn the_same_battle_is_kept_once() {
    let bytes = br#"acloshighlight_battle_list_7 [{"matchId":"m1"}] acloshighlight_battle_list_7 [{"matchId":"m1"}]"#;
    let mut result = LevelDbBattleListResult::new();
    let mut seen = SeenKeys::new();
    parse_leveldb_bytes(bytes, &mut result, &mut seen);
    assert_eq!(result.battles.len(), 1);
}

#[test]
fn records_without_ids_count_as_bad() {
    let bytes = br#"acloshighlight_battle_list_7 [{"kills":1},{"matchId":"m2"}]"#;
    let mut result = LevelDbBattleListResult::new();
    let mut seen = SeenKeys::new();
    parse_leveldb_bytes(bytes, &mut result, &mut seen);
    assert_eq!(result.battles.len(), 1);
    assert_eq!(result.bad_record_count, 1);
}

#[test]
fn damaged_battle_lists_are_read_through_the_noise() {
    let bytes = b"acloshighlight_battle_list_999 \x00\x01match_id: \"0a1b2c3d-0000-1111-2222-333344445555\" kda 7/3/9 end";
    let mut result = LevelDbBattleListResult::new();
    let mut seen = SeenKeys::new();
    parse_leveldb_bytes(bytes, &mut result, &mut seen);
    assert_eq!(result.battles.len(), 1);
    let battle = &result.battles[0];
    assert_eq!(battle.account_id, "999");
    assert_eq!(battle.match_id.as_deref(), Some("0a1b2c3d-0000-1111-2222-333344445555"));
    assert_eq!(battle.kda.as_deref(), Some("7/3/9"));
    assert_eq!(battle.player_name, None);
}

#[test]
fn account_roles_are_read_from_json_lists() {
    let bytes = br#"ACLOS_USER_ROLES_INFO[{"openid":"1234567890123","nickname":"Player","tagLine":"ABC"}]"#;
    let mut result = LevelDbBattleListResult::new();
    let mut seen = SeenKeys::new();
    parse_leveldb_bytes(bytes, &mut result, &mut seen);
    assert_eq!(result.account_roles.len(), 1);
    let role = &result.account_roles[0];
    assert_eq!(role.account_id, "1234567890123");
    assert_eq!(role.player_name.as_deref(), Some("Player#ABC"));
    assert_eq!(role.nick_name.as_deref(), Some("Player"));
    assert_eq!(role.tag_line.as_deref(), Some("ABC"));
}

#[test]
fn damaged_account_roles_are_read_through_the_noise() {
    let bytes = b"ACLOS_USER_ROLES_INFO\x00openid\x0012345678901234567\x00nick\":\"Hero\",\"tag\":\"#7788\"}";
    let mut result = LevelDbBattleListResult::new();
    let mut seen = SeenKeys::new();
    parse_leveldb_bytes(bytes, &mut result, &mut seen);
    assert_eq!(result.account_roles.len(), 1);
    assert_eq!(result.account_roles[0].account_id, "12345678901234567");
    assert_eq!(result.account_roles[0].player_name.as_deref(), Some("Hero#7788"));
}

#[test]
fn riot_ids_join_name_and_tag() {
    assert_eq!(format_riot_id(" Name ", "#TAG").as_deref(), Some("Name#TAG"));
    assert_eq!(format_riot_id("Name#X", "TAG").as_deref(), Some("Name#X"));
    assert_eq!(format_riot_id("Name", "  ").as_deref(), Some("Name"));
    assert_eq!(format_riot_id(" ", "TAG"), None);
    assert_eq!(role_player_name(Some("Nick"), None), None);
    assert_eq!(role_player_name(Some("Nick#1"), None).as_deref(), Some("Nick#1"));
}

#[test]
fn ids_and_tags_have_their_shapes() {
    assert!(looks_like_account_id(" 1234567890 "));
    assert!(!looks_like_account_id("123456789"));
    assert!(!looks_like_account_id("12345678901234567890abcd"));
    assert!(looks_like_tag_line("#ab1"));
    assert!(!looks_like_tag_line("ab"));
    assert!(!looks_like_tag_line("abc-1"));
}

#[test]
fn uuids_are_found_plain_and_through_noise() {
    let text = b"id=0A1B2C3D-0000-1111-2222-333344445555";
    let (uuid, position) = find_uuid_in(text, 0, text.len()).unwrap();
    assert_eq!(uuid, b"0A1B2C3D-0000-1111-2222-333344445555".to_vec());
    assert_eq!(position, 3);
    let noisy = b"0a1b2c3d\"-\"0000-1111-2222-333344445555";
    let (uuid, _) = find_uuid_in(noisy, 0, noisy.len()).unwrap();
    assert_eq!(uuid, b"0a1b2c3d-0000-1111-2222-333344445555".to_vec());
    assert!(find_uuid_in(b"no ids here", 0, 11).is_none());
}

#[test]
fn json_arrays_are_cut_at_their_closing_bracket() {
    assert_eq!(json_array_prefix(r#"x[1,[2],"]"] tail"#).as_deref(), Some(r#"[1,[2],"]"]"#));
    assert_eq!(json_array_prefix("[1,2"), None);
    assert_eq!(json_array_prefix("none"), None);
}

#[test]
fn leveldb_files_are_recognized_by_name() {
    assert!(is_leveldb_candidate_file("CURRENT"));
    assert!(is_leveldb_candidate_file("MANIFEST-000001"));
    assert!(is_leveldb_candidate_file("000005.ldb"));
    assert!(is_leveldb_candidate_file("000003.LOG"));
    assert!(!is_leveldb_candidate_file("LOCK"));
}
