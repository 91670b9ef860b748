use vhm_core::highlight_log_parser::{
    finalize_round_scores, merge_highlight_results, parse_highlight_log_content, HighlightLogLineKind, HighlightLogParseResult,
    HighlightLogRoundScore,
};

#[test]
fn request_lines_become_records() {
    let content = "# comment\n\
        first request data is {\"matchId\":\"m-1\",\"battleId\":\"b-1\",\"kills\":10,\"deaths\":2,\"assists\":5,\"hasWon\":true,\"combatScore\":250,\"recordSrc\":\"D:\\\\v\\\\a.mp4\"}\n\
        \n";
    let result = parse_highlight_log_content(content);
    assert_eq!(result.records.len(), 1);
    let record = &result.records[0];
    assert_eq!(record.line_kind, HighlightLogLineKind::FirstRequestData);
    assert_eq!(record.match_id.as_deref(), Some("m-1"));
    assert_eq!(record.battle_id.as_deref(), Some("b-1"));
    assert_eq!(record.kda.as_deref(), Some("10/2/5"));
    assert_eq!(record.has_won, Some(true));
    assert_eq!(record.combat_score, Some(250));
    assert_eq!(record.record_src.as_deref(), Some("D:/v/a.mp4"));
    assert!(!record.has_gzip_event);
    assert_eq!(result.bad_line_count, 0);
}

#[test]
fn unreadable_payloads_count_as_bad_lines() {
    let result = parse_highlight_log_content("first request data is {broken\ntemplate param == 42\n");
    assert_eq!(result.records.len(), 0);
    assert_eq!(result.bad_line_count, 2);
}

#[test]
fn arrays_of_objects_give_one_record_each() {
    let result = parse_highlight_log_content("template param == [{\"matchId\":\"a\"},3,{\"matchId\":\"b\"}]");
    assert_eq!(result.records.len(), 2);
    assert_eq!(result.records[1].line_kind, HighlightLogLineKind::TemplateParam);
    assert_eq!(result.records[1].match_id.as_deref(), Some("b"));
}

fn score(account: &str, match_id: &str, round_id: i64, score: i64) -> HighlightLogRoundScore {
    HighlightLogRoundScore { account_id: account.to_string(), match_id: match_id.to_string(), round_id, score }
}

#[test]
fn disagreeing_round_scores_become_conflicts() {
    let mut result = HighlightLogParseResult::new();
    result.round_scores = vec![
        score(" ACC ", "M1", 2, 100),
        score("acc", "m1", 1, 50),
        score("acc", "m1", 2, 120),
        score("acc", "m1", 1, 50),
        score("", "m1", 3, 10),
        score("acc", "m1", 4, -1),
    ];
    finalize_round_scores(&mut result);
    assert_eq!(result.round_scores, vec![score("acc", "m1", 1, 50)]);
    assert_eq!(result.round_score_conflicts, vec![("acc".to_string(), "m1".to_string(), 2)]);
}

#[test]
fn merging_logs_keeps_each_record_once() {
    let first = parse_highlight_log_content(
        "first request data is {\"matchId\":\"m-1\"}\nfirst request data is {\"matchId\":\"m-2\"}\nfirst request data is {broken",
    );
    let second = parse_highlight_log_content(
        "first request data is {\"matchId\":\"m-2\"}\nfirst request data is {\"matchId\":\"m-3\"}",
    );
    assert_eq!(first.records.len(), 2);
    let merged = merge_highlight_results(vec![first, second]);
    let ids: Vec<Option<String>> = merged.records.iter().map(|r| r.match_id.clone()).collect();
    assert_eq!(ids, vec![Some("m-1".to_string()), Some("m-2".to_string()), Some("m-3".to_string())]);
    assert_eq!(merged.bad_line_count, 1);
}

#[test]
fn raw_json_keeps_float_digits() {
    let result = parse_highlight_log_content(
        "first request data is {\"matchId\":\"m-9\",\"offset\":51.248178375505404,\"drift\":-93.31137037688033}",
    );
    assert_eq!(result.records.len(), 1);
    let raw = &result.records[0].raw_json;
    assert!(raw.contains("51.248178375505404"), "{raw}");
    assert!(raw.contains("-93.31137037688033"), "{raw}");
}
