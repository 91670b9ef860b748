use vhm_core::highlight_log_parser::{HighlightLogKillEvent, HighlightLogLineKind, HighlightLogRecord};
use vhm_core::leveldb_reader::LevelDbBattleRecord;
use vhm_core::metadata_ingest::{
    account_id_from_record_src, group_keys_for_merged, match_stats_row, merge_metadata_sources, parse_kda,
    parse_scoreline, reconcile_account, recordable_kill_events, record_src_group_key, rounds_played,
    MetadataIngestInput,
};

fn battle(account: &str, match_id: &str) -> LevelDbBattleRecord {
    LevelDbBattleRecord {
        account_id: account.to_string(),
        battle_id: None,
        match_id: Some(match_id.to_string()),
        player_name: Some("Hero#1234".to_string()),
        kda: Some("3/1/2".to_string()),
        match_date: Some("2024-05-01".to_string()),
        agent_avatar_url: None,
        raw_json: "{}".to_string(),
    }
}

fn record(kind: HighlightLogLineKind, match_id: Option<&str>, record_src: Option<&str>) -> HighlightLogRecord {
    HighlightLogRecord {
        line_kind: kind,
        match_id: match_id.map(str::to_string),
        battle_id: None,
        record_src: record_src.map(str::to_string),
        player_name: None,
        map_id: None,
        map_name: None,
        game_mode: None,
        agent_name: None,
        kda: None,
        scoreline: Some("13/7".to_string()),
        has_won: Some(true),
        combat_score: Some(250),
        kill_events: vec![event(Some(0)), event(Some(3))],
        has_gzip_event: false,
        raw_json: "{}".to_string(),
    }
}

fn event(round_id: Option<i64>) -> HighlightLogKillEvent {
    HighlightLogKillEvent {
        event_time: None,
        round_id,
        weapon_name: None,
        killer_name: None,
        killed_name: None,
        raw_json: None,
    }
}

#[test]
fn a_battle_and_a_log_record_of_one_match_merge_into_one_entry() {
    let battles = vec![battle("111", "match-a"), battle("111", "match-b")];
    let records = vec![record(HighlightLogLineKind::FirstRequestData, Some("match-a"), None)];
    let merged = merge_metadata_sources(MetadataIngestInput { leveldb_battles: &battles, log_records: &records });
    assert_eq!(merged.len(), 2);
    let first = &merged[0];
    assert_eq!(first.match_id.as_deref(), Some("match-a"));
    assert_eq!(first.account_id.as_deref(), Some("111"));
    assert!(first.source_leveldb);
    assert!(first.source_log);
    assert_eq!(first.kda.as_deref(), Some("3/1/2"));
    assert_eq!(first.scoreline.as_deref(), Some("13/7"));
    assert_eq!(first.has_won, Some(true));
    assert_eq!(first.combat_score, Some(250));
    assert_eq!(first.started_at.as_deref(), Some("2024-05-01"));
    assert_eq!(first.kill_events.len(), 2);
    assert!(!merged[1].source_log);
    assert_eq!(first.game_id().as_deref(), Some("match-a"));
}

#[test]
fn a_record_without_ids_is_found_by_its_clip_group() {
    let records = vec![
        record(
            HighlightLogLineKind::FirstRequestData,
            Some("group-1"),
            Some("D:/x/wonderfulVideos222/group-1/clip.mp4"),
        ),
        record(HighlightLogLineKind::TemplateParam, None, Some("D:/x/wonderfulVideos222/group-1/other.mp4")),
    ];
    let merged = merge_metadata_sources(MetadataIngestInput { leveldb_battles: &[], log_records: &records });
    assert_eq!(merged.len(), 1);
    assert_eq!(merged[0].account_id.as_deref(), Some("222"));
    assert_eq!(group_keys_for_merged(&merged[0]), vec!["group-1".to_string()]);
}

#[test]
fn record_sources_name_their_group_and_account() {
    assert_eq!(record_src_group_key("D:/v/wonderfulVideos1/g/clip.MP4").as_deref(), Some("g"));
    assert_eq!(record_src_group_key("D:/v/wonderfulVideos1/g/").as_deref(), Some("g"));
    assert_eq!(record_src_group_key("D:/v/record/clip.mp4"), None);
    let r = record(HighlightLogLineKind::FirstRequestData, None, Some("E:/wonderfulVideos98765x/g/a.mp4"));
    assert_eq!(account_id_from_record_src(&r).as_deref(), Some("98765"));
    let r = record(HighlightLogLineKind::FirstRequestData, None, Some("E:/videos/g/a.mp4"));
    assert_eq!(account_id_from_record_src(&r), None);
}

#[test]
fn kda_and_scorelines_split_into_numbers() {
    assert_eq!(parse_kda(Some(" 10 / 2 /5")), (Some(10), Some(2), Some(5)));
    assert_eq!(parse_kda(Some("10/2")), (None, None, None));
    assert_eq!(parse_kda(Some("a/2/3")), (None, Some(2), Some(3)));
    assert_eq!(parse_scoreline(Some("13/11")), (Some(13), Some(11)));
    assert_eq!(parse_scoreline(None), (None, None));
    assert_eq!(rounds_played(Some(13), Some(11)), Some(24));
    assert_eq!(rounds_played(Some(13), None), None);
}

#[test]
fn round_zero_kills_are_not_recorded() {
    let events = vec![event(Some(0)), event(Some(1)), event(None)];
    let kept = recordable_kill_events(&events);
    assert_eq!(kept.len(), 2);
    assert_eq!(kept[0].round_id, Some(1));
    assert_eq!(kept[1].round_id, None);
}

#[test]
fn stats_rows_need_some_statistic() {
    let records = vec![record(HighlightLogLineKind::FirstRequestData, Some("m"), None)];
    let merged = merge_metadata_sources(MetadataIngestInput { leveldb_battles: &[], log_records: &records });
    let row = match_stats_row(&merged[0]).expect("the match has statistics");
    assert_eq!(row.rounds_won, Some(13));
    assert_eq!(row.rounds_lost, Some(7));
    assert_eq!(row.rounds_played, Some(20));
    assert_eq!(row.has_won, Some(1));
    assert_eq!(row.combat_score, Some(250));
    assert_eq!(row.kills, None);
}

#[test]
fn one_account_among_the_clip_sources_replaces_the_match_account() {
    let current = Some("1".to_string());
    assert_eq!(reconcile_account(&current, &vec!["7".to_string(), "7".to_string()]).as_deref(), Some("7"));
    assert_eq!(reconcile_account(&current, &vec!["7".to_string(), "8".to_string()]).as_deref(), Some("1"));
    assert_eq!(reconcile_account(&None, &vec![]), None);
}
