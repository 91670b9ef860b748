use vhm_core::highlight_log_parser::{HighlightLogAccountNameHint, HighlightLogParseResult};
use vhm_core::leveldb_reader::{LevelDbAccountRoleRecord, LevelDbBattleListResult};
use vhm_core::metadata_ingest::MetadataIngestSummary;
use vhm_core::scanner::{record_reconnect_warning, check_source_within_scan_root, record_aclos_reconnect_warning, after_reconnect, route_staged_candidate, CandidateRoute, ReconnectApplication, ReconnectJudgement, count_recursive_candidate, recursive_directory_decision, recursive_walk_action, DirectoryDecision, WalkAction, WalkEntry, count_saved_clip, plan_source_groups, record_source_problem, source_problem_text, ClipSaveOutcome, FoundFile, SourceEntry, cancelled_source_step, unavailable_source_step, completed_scan_message, empty_scan_message, fresh_source_ids, metadata_source_paths_of, unseen_clip_paths, SourceScanOutcome, SourceScanStep, push_source_error, aclos_root_for_scan_anchor, prefer_candidate_wonderful_root, prefer_scan_parent_metadata, ScanExecutionStatus, ScanProgressState, ScanSummary, account_name_hints, has_mp4_extension, push_metadata_warnings, record_ingest_result, record_metadata_read_warnings, truncate_utf8_bytes};

#[test]
fn extension_matching_is_mp4_only_and_case_insensitive() {
    assert!(has_mp4_extension("clip.mp4"));
    assert!(has_mp4_extension("clip.MP4"));
    assert!(!has_mp4_extension("clip.mov"));
    assert!(!has_mp4_extension("clip.mp4.part"));
}

#[test]
fn truncation_keeps_whole_characters() {
    assert_eq!(truncate_utf8_bytes("abcdef", 3), "abc");
    assert_eq!(truncate_utf8_bytes("捷风", 4), "捷");
    assert_eq!(truncate_utf8_bytes("ab", 10), "ab");
}

#[test]
fn an_empty_summary_has_no_errors() {
    let summary = ScanSummary::empty("D:/videos".to_string());
    assert_eq!(summary.root_path, "D:/videos");
    assert!(summary.errors.is_empty());
}

use vhm_core::scanner::{
    agent_asset_id_from_url, clip_group_name_for_file, decode_base64_file_stem, format_system_time,
    path_after_log_marker, scan_root_from_aclos_path, select_cover_for_clip, select_video_export_metadata,
};

#[test]
fn edit_asset_names_decode_to_their_urls() {
    assert_eq!(
        decode_base64_file_stem("aHR0cHM6Ly94L0FnZW50QmFja2dyb3VuZC9hZ2VudC8xMjM0NS5wbmc.png").as_deref(),
        Some("https://x/AgentBackground/agent/12345.png")
    );
    assert_eq!(decode_base64_file_stem("!!!.png"), None);
}

#[test]
fn agent_asset_ids_come_from_background_and_skill_urls() {
    assert_eq!(agent_asset_id_from_url("https://x/AgentBackground/agent/12345.png").as_deref(), Some("12345"));
    assert_eq!(agent_asset_id_from_url("C:\\a\\agentskill\\77_q.png").as_deref(), Some("77"));
    assert_eq!(agent_asset_id_from_url("https://x/agentskill/77.png"), None);
    assert_eq!(agent_asset_id_from_url("https://x/other/1.png"), None);
}

#[test]
fn videocut_log_lines_name_library_roots() {
    assert_eq!(
        path_after_log_marker("12:00 clip file: D:/Games/wonderfulVideos1/a.mp4, size 3", "clip file:").as_deref(),
        Some("D:/Games/wonderfulVideos1/a.mp4")
    );
    assert_eq!(path_after_log_marker("file path: , x", "file path:"), None);
    assert_eq!(
        scan_root_from_aclos_path(" D:/Games/WonderfulVideos1/a.mp4 ").as_deref(),
        Some("D:\\Games")
    );
    assert_eq!(scan_root_from_aclos_path("/wonderfulVideos1/a.mp4"), None);
}

#[test]
fn clips_find_their_covers() {
    let covers = vec!["cover-A.jpeg".to_string(), "cover-b.jpeg".to_string()];
    assert_eq!(select_cover_for_clip("b.mp4", &covers, 2), Some(1));
    assert_eq!(select_cover_for_clip("c.mp4", &covers, 2), None);
    let single = vec!["cover-x.jpeg".to_string()];
    assert_eq!(select_cover_for_clip("c.mp4", &single, 1), Some(0));
    assert_eq!(clip_group_name_for_file("match.final.mp4"), "match.final");
}

#[test]
fn the_nearest_export_config_within_two_minutes_wins() {
    let observed = vec![Some(1000), None, Some(1090), Some(1010), Some(990)];
    assert_eq!(select_video_export_metadata(&observed, Some(1000)), Some(0));
    assert_eq!(select_video_export_metadata(&observed, Some(1005)), Some(0));
    assert_eq!(select_video_export_metadata(&observed, Some(5000)), None);
    assert_eq!(select_video_export_metadata(&observed, None), None);
    assert_eq!(format_system_time(true, 42), "42");
    assert_eq!(format_system_time(false, 42), "0");
}

#[test]
fn progress_counts_sources_groups_and_files() {
    let mut state = ScanProgressState::new("D:/videos".to_string());
    state.set_total_sources(3);
    let started = state.source_started("Aclos", "D:/videos/Aclos");
    assert_eq!(started.phase, "scanning");
    assert_eq!(started.message, "正在扫描 Aclos");
    assert_eq!(started.source.as_deref(), Some("D:/videos/Aclos"));
    assert_eq!(started.total, 3);
    let file = state.clip_scanned("a.mp4");
    assert_eq!(file.clip_file_count, 1);
    assert_eq!(file.message, "已扫描文件 a.mp4");
    let group = state.group_scanned("match-1");
    assert_eq!(group.clip_group_count, 1);
    assert_eq!(group.message, "已扫描分组 match-1");
    let done = state.source_finished("Aclos");
    assert_eq!(done.current, 1);
    assert_eq!(done.source_dir_count, 1);
    assert_eq!(done.source.as_deref(), Some("D:/videos/Aclos"));
    assert_eq!(done.message, "已完成来源 Aclos");
    assert!(state.source.is_none());
    state.source_started("Other", "E:/Other");
    let stopped = state.source_interrupted("Other");
    assert_eq!(stopped.message, "已停止扫描来源 Other");
    assert_eq!(stopped.current, 1);
    assert!(state.source.is_none());
}

#[test]
fn total_sources_saturate_at_i64_max() {
    let mut state = ScanProgressState::new(String::new());
    state.set_total_sources(usize::MAX);
    assert_eq!(state.total, i64::MAX);
}

#[test]
fn finishing_reports_the_status_or_the_summary_message() {
    let state = ScanProgressState::new("root".to_string());
    let (execution, report) = state.finish(ScanExecutionStatus::Partial, ScanSummary::empty("root".to_string()));
    assert_eq!(execution.status, ScanExecutionStatus::Partial);
    assert_eq!(report.phase, "partial");
    assert_eq!(report.message, "partial");
    let mut summary = ScanSummary::empty("root".to_string());
    summary.message = Some("Scan completed: 2 sources, 5 groups".to_string());
    let (_, report) = state.finish(ScanExecutionStatus::Completed, summary);
    assert_eq!(report.phase, "completed");
    assert_eq!(report.message, "Scan completed: 2 sources, 5 groups");
}

#[test]
fn a_cancelled_scan_says_how_far_it_got() {
    let state = ScanProgressState::new("root".to_string());
    let mut summary = ScanSummary::empty("root".to_string());
    summary.source_dir_count = 2;
    summary.clip_group_count = 7;
    let (execution, report) = state.finish_cancelled(summary);
    assert_eq!(execution.status, ScanExecutionStatus::Cancelled);
    assert_eq!(execution.summary.message.as_deref(), Some("Scan cancelled after 2 sources and 7 groups"));
    assert_eq!(report.phase, "cancelled");
    assert_eq!(report.message, "Scan cancelled after 2 sources and 7 groups");
}

#[test]
fn metadata_reader_counts_become_scan_errors() {
    let mut summary = ScanSummary::empty("root".to_string());
    let mut leveldb = LevelDbBattleListResult::new();
    leveldb.warning_count = 2;
    let mut log = HighlightLogParseResult::new();
    log.bad_line_count = 13;
    push_metadata_warnings(&mut summary, &leveldb, &log);
    assert_eq!(
        summary.errors,
        vec![
            "LevelDB 读取警告 2 条，已跳过不可读文件并继续扫描".to_string(),
            "highlight.log 解析坏行 13 条，其他日志行已继续导入".to_string(),
        ]
    );
    push_metadata_warnings(&mut summary, &leveldb, &log);
    assert_eq!(summary.errors.len(), 2);
}

#[test]
fn metadata_read_errors_and_counts_add_to_the_warning_count() {
    let mut summary = ScanSummary::empty("root".to_string());
    let mut leveldb = LevelDbBattleListResult::new();
    leveldb.bad_record_count = 3;
    let log = HighlightLogParseResult::new();
    let errors = vec!["无法读取 LevelDB 快照".to_string()];
    record_metadata_read_warnings(&mut summary, &errors, &leveldb, &log);
    assert_eq!(summary.metadata_warning_count, 4);
    assert_eq!(
        summary.errors,
        vec![
            "无法读取 LevelDB 快照".to_string(),
            "LevelDB 对局记录解析失败 3 条，其他记录已继续导入".to_string(),
        ]
    );
}

#[test]
fn ingest_outcomes_are_booked_on_the_summary() {
    let mut summary = ScanSummary::empty("root".to_string());
    let mut ingest = MetadataIngestSummary::new();
    ingest.matches_upserted = 2;
    ingest.enriched_clip_count = 5;
    ingest.events_inserted = 9;
    record_ingest_result(&mut summary, Ok(ingest));
    assert_eq!(summary.metadata_match_count, 2);
    assert_eq!(summary.metadata_enriched_clip_count, 5);
    assert_eq!(summary.metadata_event_count, 9);
    assert_eq!(summary.metadata_warning_count, 0);
    record_ingest_result(&mut summary, Err("database is locked".to_string()));
    assert_eq!(summary.metadata_warning_count, 1);
    assert_eq!(summary.errors, vec!["database is locked".to_string()]);
    assert_eq!(summary.metadata_match_count, 2);
}

#[test]
fn account_name_hints_take_named_roles_then_named_log_hints() {
    let mut leveldb = LevelDbBattleListResult::new();
    leveldb.account_roles.push(LevelDbAccountRoleRecord {
        account_id: "a1".to_string(),
        player_name: Some("Alpha#CN1".to_string()),
        nick_name: None,
        tag_line: None,
        raw_text: String::new(),
    });
    leveldb.account_roles.push(LevelDbAccountRoleRecord {
        account_id: "a2".to_string(),
        player_name: None,
        nick_name: None,
        tag_line: None,
        raw_text: String::new(),
    });
    let mut log = HighlightLogParseResult::new();
    log.account_name_hints.push(HighlightLogAccountNameHint {
        account_id: "a3".to_string(),
        account_name: Some("Gamma".to_string()),
    });
    log.account_name_hints.push(HighlightLogAccountNameHint { account_id: "a4".to_string(), account_name: None });
    let hints = account_name_hints(&leveldb, &log);
    let pairs: Vec<(String, String)> =
        hints.into_iter().map(|h| (h.account_id, h.account_name)).collect();
    assert_eq!(
        pairs,
        vec![("a1".to_string(), "Alpha#CN1".to_string()), ("a3".to_string(), "Gamma".to_string())]
    );
}

#[test]
fn scan_anchors_resolve_to_their_aclos_root() {
    // ...\ACLOS\aclos-highlight -> ...\ACLOS
    assert_eq!(aclos_root_for_scan_anchor("aclos-highlight", Some("ACLOS"), true, true), (1, true));
    assert_eq!(aclos_root_for_scan_anchor("ACLOS-Highlight", None, false, false), (0, true));
    // ...\ACLOS\aclos-highlight\wonderfulVideos123 -> ...\ACLOS
    assert_eq!(
        aclos_root_for_scan_anchor("wonderfulVideos123", Some("aclos-highlight"), true, true),
        (2, true)
    );
    // D:\Export\wonderfulVideos123 -> D:\Export
    assert_eq!(aclos_root_for_scan_anchor("wonderfulVideos123", Some("Export"), true, true), (1, true));
    assert_eq!(aclos_root_for_scan_anchor("WonderfulVideos", None, false, false), (0, true));
    // Any other directory is its own root and no ACLOS directory.
    assert_eq!(aclos_root_for_scan_anchor("Videos", Some("D:\\"), true, false), (0, false));
    assert_eq!(aclos_root_for_scan_anchor("", None, false, false), (0, false));
}

#[test]
fn metadata_roots_prefer_the_scanned_library_when_it_has_data() {
    assert!(prefer_scan_parent_metadata(true, true, true));
    assert!(prefer_scan_parent_metadata(true, false, false));
    assert!(!prefer_scan_parent_metadata(true, false, true));
    assert!(!prefer_scan_parent_metadata(false, true, false));
    assert!(prefer_candidate_wonderful_root(true, true));
    assert!(!prefer_candidate_wonderful_root(true, false));
    assert!(!prefer_candidate_wonderful_root(false, true));
}

#[test]
fn source_errors_name_their_source() {
    let mut summary = ScanSummary::empty("root".to_string());
    push_source_error(&mut summary, "D:/videos/wonderfulVideos1", "access denied");
    assert_eq!(summary.errors, vec!["Source D:/videos/wonderfulVideos1: access denied".to_string()]);
}

#[test]
fn reconnect_warnings_block_missing_marks_only_when_they_say_so() {
    let mut summary = ScanSummary::empty("root".to_string());
    let mut source_errors: Vec<String> = Vec::new();
    let mut complete = true;
    record_reconnect_warning(&mut summary, &mut source_errors, &mut complete, false, "hardlink ambiguous");
    assert!(complete);
    record_reconnect_warning(&mut summary, &mut source_errors, &mut complete, true, "identity unreadable");
    assert!(!complete);
    record_reconnect_warning(&mut summary, &mut source_errors, &mut complete, false, "identity unreadable");
    assert!(!complete);
    assert_eq!(source_errors, vec!["hardlink ambiguous".to_string(), "identity unreadable".to_string()]);
    assert_eq!(summary.errors.len(), 2);
}

fn outcome(path: &str, id: Option<i64>, accessible: bool, eligible: bool, complete: bool) -> SourceScanOutcome {
    SourceScanOutcome {
        source_path: path.to_string(),
        source_id: id,
        accessible,
        metadata_eligible: eligible,
        complete_for_missing: complete,
        seen_paths: vec!["d:/v/a.mp4".to_string()],
    }
}

#[test]
fn batch_outcomes_pick_metadata_sources_and_fresh_ids() {
    let outcomes = vec![
        outcome("D:/v/one", Some(1), true, true, true),
        outcome("D:/v/two", Some(2), false, false, false),
        outcome("D:/v/three", None, true, true, true),
        outcome("D:/v/four", Some(4), true, false, true),
        outcome("D:/v/five", Some(5), true, true, false),
    ];
    assert_eq!(
        metadata_source_paths_of(&outcomes),
        vec!["D:/v/one".to_string(), "D:/v/three".to_string(), "D:/v/five".to_string()]
    );
    assert_eq!(fresh_source_ids(&outcomes), vec![1, 4]);
    let step = SourceScanStep::cancelled(outcome("D:/v/six", Some(6), true, true, false));
    assert!(step.cancelled);
    assert!(!SourceScanStep::finished(outcome("x", None, true, true, true)).cancelled);
}

#[test]
fn only_complete_sources_mark_unseen_clips_missing() {
    let active = vec!["d:/v/a.mp4".to_string(), "d:/v/b.mp4".to_string(), "d:/v/c.mp4".to_string()];
    assert_eq!(
        unseen_clip_paths(&outcome("D:/v", Some(1), true, true, true), &active),
        vec!["d:/v/b.mp4".to_string(), "d:/v/c.mp4".to_string()]
    );
    assert!(unseen_clip_paths(&outcome("D:/v", Some(1), true, true, false), &active).is_empty());
    assert!(unseen_clip_paths(&outcome("D:/v", None, true, true, true), &active).is_empty());
}

#[test]
fn batch_messages_count_roots_sources_and_groups() {
    let mut summary = ScanSummary::empty("root".to_string());
    summary.source_dir_count = 3;
    summary.clip_group_count = 12;
    assert_eq!(empty_scan_message(&summary), "Scan completed: 3 sources, 12 groups");
    assert_eq!(completed_scan_message(2, &summary), "Scan completed: 2 roots, 3 sources, 12 groups");
    summary.push_error("one source was unreadable");
    assert_eq!(
        completed_scan_message(2, &summary),
        "Scan completed with warnings: 2 roots, 3 sources, 12 groups"
    );
}

#[test]
fn a_scan_announces_its_roots_and_sources() {
    let mut state = ScanProgressState::new("D:/videos; E:/clips".to_string());
    let first = state.preparing();
    assert_eq!(first.phase, "discovering");
    assert_eq!(first.message, "正在准备扫描 D:/videos; E:/clips");
    let found = state.sources_found(4);
    assert_eq!(found.phase, "scanning");
    assert_eq!(found.total, 4);
    assert_eq!(found.message, "发现 4 个来源目录");
}

#[test]
fn stopped_and_unreadable_sources_end_their_step() {
    let mut state = ScanProgressState::new("root".to_string());
    state.source_started("one", "D:/v/one");
    let (step, report) = cancelled_source_step(
        &mut state,
        "one",
        "D:/v/one".to_string(),
        Some(3),
        true,
        vec!["d:/v/one/a.mp4".to_string()],
    );
    assert!(step.cancelled);
    assert!(step.outcome.accessible);
    assert!(!step.outcome.complete_for_missing);
    assert_eq!(step.outcome.seen_paths.len(), 1);
    assert_eq!(report.message, "已停止扫描来源 one");
    assert!(state.source.is_none());

    let mut summary = ScanSummary::empty("root".to_string());
    state.source_started("two", "D:/v/two");
    let (step, report) = unavailable_source_step(
        &mut summary,
        &mut state,
        "two",
        "D:/v/two".to_string(),
        Some(4),
        false,
        "access denied",
    );
    assert!(!step.cancelled);
    assert!(!step.outcome.accessible);
    assert_eq!(step.outcome.source_id, Some(4));
    assert!(step.outcome.seen_paths.is_empty());
    assert_eq!(summary.errors, vec!["Source D:/v/two: access denied".to_string()]);
    assert_eq!(report.message, "已完成来源 two");
    assert_eq!(report.current, 1);
}

fn found(path: &str, name: &str) -> FoundFile {
    FoundFile { path: path.to_string(), file_name: name.to_string() }
}

#[test]
fn source_entries_become_clip_groups_and_problems() {
    let mut summary = ScanSummary::empty("root".to_string());
    let mut source_errors: Vec<String> = Vec::new();
    let mut complete = true;
    let entries = vec![
        SourceEntry::Directory {
            path: "S/match-1".to_string(),
            name: "match-1".to_string(),
            within_root: Ok(()),
            per_clip_files: None,
        },
        SourceEntry::Directory {
            path: "S/record".to_string(),
            name: "Record".to_string(),
            within_root: Ok(()),
            per_clip_files: Some(Ok(vec![found("S/record/a.mp4", "a.mp4"), found("S/record/b.mp4", "b.mp4")])),
        },
        SourceEntry::Mp4File { file: found("S/loose.mp4", "loose.mp4"), within_root: Ok(()) },
        SourceEntry::Other,
    ];
    let groups = plan_source_groups(&mut summary, &mut source_errors, &mut complete, "S", &entries);
    let view: Vec<(String, String, Option<String>, usize)> = groups
        .into_iter()
        .map(|g| (g.group_path, g.group_name, g.root_clip, g.shared_dir_clip_count))
        .collect();
    assert_eq!(
        view,
        vec![
            ("S/match-1".to_string(), "match-1".to_string(), None, 0),
            ("S/record".to_string(), "a".to_string(), Some("S/record/a.mp4".to_string()), 2),
            ("S/record".to_string(), "b".to_string(), Some("S/record/b.mp4".to_string()), 2),
            ("S".to_string(), "loose".to_string(), Some("S/loose.mp4".to_string()), 0),
        ]
    );
    assert!(complete);
    assert!(summary.errors.is_empty());

    let problems = vec![
        SourceEntry::Unreadable { path: "S/x".to_string(), error: "denied".to_string() },
        SourceEntry::Link { path: "S/link".to_string() },
        SourceEntry::Mp4File { file: found("S/out.mp4", "out.mp4"), within_root: Err("outside".to_string()) },
    ];
    let groups = plan_source_groups(&mut summary, &mut source_errors, &mut complete, "S", &problems);
    assert!(groups.is_empty());
    assert!(!complete);
    assert_eq!(
        source_errors,
        vec![
            "Failed to inspect source entry S/x: denied".to_string(),
            "Skipped symbolic link or reparse point: S/link".to_string(),
            "outside".to_string(),
        ]
    );
    assert_eq!(summary.errors[2], "Source S: outside");
    assert_eq!(source_problem_text(&source_errors).as_deref(), Some(
        "Failed to inspect source entry S/x: denied | Skipped symbolic link or reparse point: S/link | outside"
    ));
    assert_eq!(source_problem_text(&Vec::new()), None);
}

#[test]
fn source_problems_and_saved_clips_are_counted() {
    let mut summary = ScanSummary::empty("root".to_string());
    let mut source_errors: Vec<String> = Vec::new();
    let mut complete = true;
    record_source_problem(&mut summary, &mut source_errors, &mut complete, "S", "bad group");
    assert!(!complete);
    assert_eq!(summary.errors, vec!["Source S: bad group".to_string()]);
    assert_eq!(source_errors, vec!["bad group".to_string()]);
    count_saved_clip(&mut summary, ClipSaveOutcome::Inserted, true);
    count_saved_clip(&mut summary, ClipSaveOutcome::Updated, false);
    count_saved_clip(&mut summary, ClipSaveOutcome::Unchanged, false);
    assert_eq!(summary.new_clip_count, 1);
    assert_eq!(summary.updated_clip_count, 1);
    assert_eq!(summary.cover_missing_count, 2);
}

#[test]
fn the_recursive_walk_skips_deep_or_visited_directories() {
    match recursive_directory_decision("R/a/b", 65, false) {
        DirectoryDecision::TooDeep(w) => assert_eq!(w, "Skipped directory deeper than 64 levels: R/a/b"),
        _ => panic!("a directory below the limit is skipped"),
    }
    assert!(matches!(recursive_directory_decision("R/a", 64, true), DirectoryDecision::AlreadyVisited));
    assert!(matches!(recursive_directory_decision("R/a", 3, false), DirectoryDecision::Read));
}

#[test]
fn the_recursive_walk_acts_on_each_entry() {
    let warn = |e: WalkEntry| match recursive_walk_action(&e, 1) {
        WalkAction::Warn(w) => w,
        _ => panic!("expected a warning"),
    };
    assert_eq!(
        warn(WalkEntry::DirectoryUnreadable { directory: "R/a".to_string(), error: "denied".to_string() }),
        "Failed to read directory R/a: denied"
    );
    assert_eq!(
        warn(WalkEntry::EnumerateFailed { directory: "R/a".to_string(), error: "io".to_string() }),
        "Failed to enumerate an entry in R/a: io"
    );
    assert_eq!(
        warn(WalkEntry::InspectFailed { path: "R/a/x".to_string(), error: "gone".to_string() }),
        "Failed to inspect R/a/x: gone"
    );
    assert_eq!(warn(WalkEntry::Link { path: "R/l".to_string() }), "Skipped symbolic link or reparse point: R/l");
    assert_eq!(
        warn(WalkEntry::Directory { path: "R/o".to_string(), canonical: Err("outside the root".to_string()) }),
        "outside the root"
    );
    match recursive_walk_action(&WalkEntry::Directory { path: "R/s".to_string(), canonical: Ok("C:/R/s".to_string()) }, 1) {
        WalkAction::Descend { directory, depth } => {
            assert_eq!(directory, "C:/R/s");
            assert_eq!(depth, 2);
        }
        _ => panic!("a directory inside the root is searched"),
    }
    assert!(matches!(recursive_walk_action(&WalkEntry::File { path: "R/a.mp4".to_string(), is_mp4: true }, 0), WalkAction::Candidate));
    assert!(matches!(recursive_walk_action(&WalkEntry::File { path: "R/a.txt".to_string(), is_mp4: false }, 0), WalkAction::Skip));
    assert!(matches!(recursive_walk_action(&WalkEntry::Other, 0), WalkAction::Skip));
}

#[test]
fn the_recursive_walk_stops_past_its_candidate_limit() {
    assert_eq!(count_recursive_candidate(0, "R"), (1, None));
    assert_eq!(count_recursive_candidate(999_999, "R"), (1_000_000, None));
    assert_eq!(
        count_recursive_candidate(1_000_000, "C:/R"),
        (1_000_001, Some("Stopped after 1000000 MP4 candidates under C:/R".to_string()))
    );
}

#[test]
fn staged_candidates_are_routed_by_the_store_judgement() {
    assert_eq!(route_staged_candidate(&ReconnectJudgement::ExistingPath, true), CandidateRoute::SaveNormally);
    assert_eq!(route_staged_candidate(&ReconnectJudgement::New, true), CandidateRoute::QueuePending);
    assert_eq!(route_staged_candidate(&ReconnectJudgement::New, false), CandidateRoute::SaveNormally);
    assert_eq!(
        route_staged_candidate(&ReconnectJudgement::NewWithWarning { skips_candidate: true }, true),
        CandidateRoute::Skip
    );
    assert_eq!(
        route_staged_candidate(&ReconnectJudgement::NewWithWarning { skips_candidate: false }, true),
        CandidateRoute::QueuePending
    );
    assert_eq!(
        route_staged_candidate(&ReconnectJudgement::Reconnect { same_identity: true }, false),
        CandidateRoute::Reconnect
    );
    assert_eq!(
        route_staged_candidate(&ReconnectJudgement::Reconnect { same_identity: false }, false),
        CandidateRoute::SaveNormally
    );
}

#[test]
fn reconnect_attempts_fall_back_or_give_up_with_a_warning() {
    assert_eq!(after_reconnect(&ReconnectApplication::Reconnected, "R/a.mp4"), (None, false));
    assert_eq!(after_reconnect(&ReconnectApplication::OldPathPresent, "R/a.mp4"), (None, true));
    assert_eq!(
        after_reconnect(&ReconnectApplication::OldPathUnverifiable("denied".to_string()), "R/a.mp4"),
        (Some("Old clip path could not be verified before reconnecting R/a.mp4: denied".to_string()), true)
    );
    assert_eq!(
        after_reconnect(&ReconnectApplication::StalePlan, "R/a.mp4"),
        (Some("Reconnect plan became stale before indexing R/a.mp4".to_string()), true)
    );
    assert_eq!(
        after_reconnect(&ReconnectApplication::Failed("locked".to_string()), "R/a.mp4"),
        (Some("Failed to reconnect recursive MP4 R/a.mp4: locked".to_string()), false)
    );
}

#[test]
fn recursive_clips_report_their_directory_once() {
    let mut state = ScanProgressState::new("root".to_string());
    let mut seen: Vec<String> = Vec::new();
    let first = state.recursive_clip_scanned(&mut seen, "", "a.mp4");
    assert_eq!(first.len(), 2);
    assert_eq!(first[0].message, "已扫描分组 根目录");
    assert_eq!(first[1].message, "已扫描文件 a.mp4");
    let second = state.recursive_clip_scanned(&mut seen, "", "b.mp4");
    assert_eq!(second.len(), 1);
    let third = state.recursive_clip_scanned(&mut seen, "2024/05", "c.mp4");
    assert_eq!(third[0].message, "已扫描分组 2024/05");
    assert_eq!(state.clip_group_count, 2);
    assert_eq!(state.clip_file_count, 3);
}

#[test]
fn aclos_reconnect_warnings_name_their_source() {
    let mut summary = ScanSummary::empty("root".to_string());
    let mut source_errors: Vec<String> = Vec::new();
    let mut complete = true;
    record_aclos_reconnect_warning(&mut summary, &mut source_errors, &mut complete, "S", false, "moved twice");
    assert!(complete);
    record_aclos_reconnect_warning(&mut summary, &mut source_errors, &mut complete, "S", true, "owner conflict");
    assert!(!complete);
    assert_eq!(summary.errors, vec!["Source S: moved twice".to_string(), "Source S: owner conflict".to_string()]);
    assert_eq!(source_errors, vec!["moved twice".to_string(), "owner conflict".to_string()]);
}

#[test]
fn sources_must_lie_in_their_scan_root() {
    let parts = |v: &[&str]| v.iter().map(|s| s.to_string()).collect::<Vec<String>>();
    let root = parts(&["C:\\", "Users", "me", "ACLOS"]);
    assert!(check_source_within_scan_root(&parts(&["C:\\", "Users", "me", "ACLOS", "wonderfulVideos1"]), &root, "x").is_ok());
    assert!(check_source_within_scan_root(&root, &root, "x").is_ok());
    assert_eq!(
        check_source_within_scan_root(&parts(&["C:\\", "Users", "me", "ACLOS2"]), &root, "C:\\Users\\me\\ACLOS2"),
        Err("ACLOS source canonical path is outside its authorized scan root: C:\\Users\\me\\ACLOS2".to_string())
    );
}

#[test]
fn files_are_read_in_lowercase_path_order() {
    let paths = vec![
        "D:/x/B.ldb".to_string(),
        "D:/x/a.ldb".to_string(),
        "D:/x/b.ldb".to_string(),
        "D:/x/É.ldb".to_string(),
        "D:/x/c.ldb".to_string(),
    ];
    assert_eq!(
        vhm_core::scanner::in_read_order(paths),
        vec![
            "D:/x/a.ldb".to_string(),
            "D:/x/B.ldb".to_string(),
            "D:/x/b.ldb".to_string(),
            "D:/x/c.ldb".to_string(),
            "D:/x/É.ldb".to_string(),
        ]
    );
}
