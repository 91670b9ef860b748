use vhm_core::metadata::{
    classify_timeline_event_time, find_kda, is_video_export_config_name, repair_mojibake,
    video_export_config_from_content, DetectedVideoType, ParseStatus, TimelineEventTimeSemantics,
};

#[test]
fn numeric_highlight_types_decide_the_event_time_convention() {
    assert_eq!(
        classify_timeline_event_time(Some(2), "", ""),
        Some(TimelineEventTimeSemantics::VideoAbsolute)
    );
    assert_eq!(
        classify_timeline_event_time(Some(4), "", ""),
        Some(TimelineEventTimeSemantics::SegmentRelative)
    );
    assert_eq!(
        classify_timeline_event_time(None, "击杀合集", ""),
        Some(TimelineEventTimeSemantics::VideoAbsolute)
    );
    assert_eq!(
        classify_timeline_event_time(None, "精彩", "三杀"),
        Some(TimelineEventTimeSemantics::SegmentRelative)
    );
    assert_eq!(classify_timeline_event_time(None, "clip", "video"), None);
    assert_eq!(classify_timeline_event_time(Some(0), "clip", "video"), None);
}

#[test]
fn a_positive_highlight_type_outranks_the_text() {
    assert_eq!(
        classify_timeline_event_time(Some(4), "击杀合集", ""),
        Some(TimelineEventTimeSemantics::SegmentRelative)
    );
    assert_eq!(
        classify_timeline_event_time(Some(3), "精彩", "三杀"),
        Some(TimelineEventTimeSemantics::VideoAbsolute)
    );
    assert_eq!(
        classify_timeline_event_time(Some(0), "击杀合集", ""),
        Some(TimelineEventTimeSemantics::VideoAbsolute)
    );
}

#[test]
fn detected_types_map_to_highlight_types_and_kill_counts() {
    assert_eq!(DetectedVideoType::KillCompilation.highlight_type(), 2);
    assert_eq!(DetectedVideoType::Death.highlight_type(), 3);
    assert_eq!(DetectedVideoType::Triple.highlight_type(), 4);
    assert_eq!(DetectedVideoType::Quad.highlight_type(), 6);
    assert_eq!(DetectedVideoType::Six.highlight_type(), 10);
    assert_eq!(DetectedVideoType::Five.kill_count(), Some(5));
    assert_eq!(DetectedVideoType::Death.kill_count(), None);
}

#[test]
fn kda_is_the_first_slash_separated_digit_triple() {
    assert_eq!(find_kda("score 12/3/4 more").as_deref(), Some("12/3/4"));
    assert_eq!(find_kda("1/2 then 007/0/9").as_deref(), Some("007/0/9"));
    assert_eq!(find_kda("no numbers"), None);
}

#[test]
fn export_config_names_are_config_json_files() {
    assert!(is_video_export_config_name("config-123.json"));
    assert!(is_video_export_config_name("config-a.JSON"));
    assert!(!is_video_export_config_name("config-a.txt"));
    assert!(!is_video_export_config_name("other.json"));
}

#[test]
fn mojibake_is_repaired_to_the_utf8_text() {
    assert_eq!(repair_mojibake("äº\u{201d}æ\u{9d}\u{20ac}").as_deref(), Some("五杀"));
    assert_eq!(repair_mojibake("plain ascii"), None);
    assert_eq!(repair_mojibake("五杀"), None);
}

#[test]
fn a_config_yields_its_text_and_structured_fields() {
    let content = r#"{"title":"五杀 集锦","desc":"地图：亚海悬城, 模式：竞技模式","k":"12/3/4"}"#;
    let metadata = video_export_config_from_content("D:/a/config-1.json".to_string(), content);
    assert_eq!(metadata.json_path, "D:/a/config-1.json");
    assert_eq!(metadata.parse_status, ParseStatus::Parsed);
    assert_eq!(metadata.extracted_text, "desc: 地图：亚海悬城, 模式：竞技模式 k: 12/3/4 title: 五杀 集锦");
    assert_eq!(metadata.kda.as_deref(), Some("12/3/4"));
    assert!(!metadata.is_triple_kill);
    assert_eq!(metadata.detected_video_type(), Some(DetectedVideoType::Five));
    assert!(metadata.parse_error.is_none());
}

#[test]
fn unreadable_or_empty_configs_fail_with_a_reason() {
    let broken = video_export_config_from_content("p".to_string(), "{not json");
    assert_eq!(broken.parse_status, ParseStatus::Failed);
    assert!(broken.parse_error.as_deref().unwrap().starts_with("Failed to parse JSON: "));
    let empty = video_export_config_from_content("p".to_string(), r#"{"a":1,"b":[true]}"#);
    assert_eq!(empty.parse_status, ParseStatus::Failed);
    assert_eq!(empty.parse_error.as_deref(), Some("No string fields found"));
}

#[test]
fn a_config_without_structure_is_partial() {
    let metadata = video_export_config_from_content("p".to_string(), r#"["hello"]"#);
    assert_eq!(metadata.parse_status, ParseStatus::Partial);
    assert_eq!(metadata.extracted_text, "hello");
}
