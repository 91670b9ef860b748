use vhm_core::drive_discovery::{
    candidate_has_direct_group_mp4, enqueue_visit, next_directory, stop_if_cancelled, visit_entry, WalkNext, DirectoryEntry, DirectoryProbe, DiscoveryEntry, EntryVisit, GroupProbe,
    final_progress_message, finish_discovery, has_reparse_attribute, is_candidate_name, is_excluded_directory,
    is_fixed_drive_type, normalized_exclusion_root, register_source, DiscoveryResult, KeyedPaths,
};

#[test]
fn read_failures_are_counted_and_sampled() {
    let mut result = DiscoveryResult::new(2);
    for i in 0..10 {
        result.record_warning(&format!("D:\\dir{i}"), "denied");
    }
    assert_eq!(result.fixed_drive_count, 2);
    assert_eq!(result.skipped_directory_count, 10);
    assert_eq!(result.warnings.len(), 8);
    assert_eq!(result.warnings[0], "无法读取目录 D:\\dir0：denied");
}

#[test]
fn progress_is_due_every_250_directories() {
    let mut result = DiscoveryResult::new(1);
    let due = (0..500).filter(|_| result.record_visit()).count();
    assert_eq!(due, 2);
    assert_eq!(result.visited_directory_count, 500);
    let progress = result.progress("D:\\", "正在搜索");
    assert_eq!(progress.visited_directory_count, 500);
    assert_eq!(progress.current_drive, "D:\\");
}

#[test]
fn candidates_exclusions_and_drive_types() {
    assert!(is_candidate_name("WonderfulVideos123"));
    assert!(!is_candidate_name("videos"));
    let excluded = vec!["c:/windows/temp".to_string()];
    assert!(is_excluded_directory("x", "c:/windows/temp", &excluded));
    assert!(is_excluded_directory("x", "c:/windows/temp/a", &excluded));
    assert!(!is_excluded_directory("tempo", "c:/windows/tempo", &excluded));
    assert!(is_excluded_directory("$RECYCLE.BIN", "d:/$recycle.bin", &vec![]));
    assert_eq!(normalized_exclusion_root("c:/temp//").as_deref(), Some("c:/temp"));
    assert_eq!(normalized_exclusion_root("///"), None);
    assert!(has_reparse_attribute(0x410));
    assert!(!has_reparse_attribute(0x10));
    assert!(is_fixed_drive_type(3));
    assert!(!is_fixed_drive_type(2));
}

#[test]
fn sources_and_roots_are_kept_once_and_ordered() {
    let mut result = DiscoveryResult::new(1);
    let mut sources = KeyedPaths::new();
    let mut roots = KeyedPaths::new();
    assert!(register_source(&mut result, &mut sources, &mut roots, "d:/b/wonderfulvideos2", "D:\\b\\wonderfulVideos2", Some(("d:/b", "D:\\b"))));
    assert!(register_source(&mut result, &mut sources, &mut roots, "d:/a/wonderfulvideos1", "D:\\A\\wonderfulVideos1", Some(("d:/a", "D:\\A"))));
    assert!(!register_source(&mut result, &mut sources, &mut roots, "d:/a/wonderfulvideos1", "D:\\A\\wonderfulVideos1", Some(("d:/a", "D:\\A"))));
    assert!(register_source(&mut result, &mut sources, &mut roots, "d:/a/wonderfulvideos3", "D:\\A\\wonderfulVideos3", Some(("d:/a", "D:\\A"))));
    assert_eq!(result.validated_source_dir_count, 3);
    finish_discovery(&mut result, sources, roots);
    assert_eq!(
        result.validated_source_dirs,
        vec!["D:\\A\\wonderfulVideos1".to_string(), "D:\\A\\wonderfulVideos3".to_string(), "D:\\b\\wonderfulVideos2".to_string()]
    );
    assert_eq!(result.scan_roots, vec!["D:\\A".to_string(), "D:\\b".to_string()]);
    assert_eq!(final_progress_message(false), "固定磁盘搜索完成");
    assert_eq!(final_progress_message(true), "固定磁盘搜索已取消");
}

#[test]
fn candidates_need_a_recording_directly_or_in_a_group() {
    let ok = |probes: Vec<GroupProbe>| candidate_has_direct_group_mp4(&Ok(probes));
    assert_eq!(ok(vec![GroupProbe::File { is_mp4: true }]), Ok(true));
    assert_eq!(
        ok(vec![
            GroupProbe::TypeUnknown("first".to_string()),
            GroupProbe::Directory(DirectoryProbe::Listed { has_mp4_file: true }),
        ]),
        Ok(true)
    );
    assert_eq!(
        ok(vec![
            GroupProbe::File { is_mp4: false },
            GroupProbe::Directory(DirectoryProbe::Link),
            GroupProbe::Directory(DirectoryProbe::ListFailed("denied".to_string())),
            GroupProbe::Directory(DirectoryProbe::InspectFailed("gone".to_string())),
        ]),
        Err("denied".to_string())
    );
    assert_eq!(ok(vec![GroupProbe::Other, GroupProbe::Directory(DirectoryProbe::Listed { has_mp4_file: false })]), Ok(false));
    assert_eq!(candidate_has_direct_group_mp4(&Err("unreadable".to_string())), Err("unreadable".to_string()));
}

fn directory(path: &str, name: &str, metadata: Result<bool, String>, probe: Option<Result<bool, String>>) -> DiscoveryEntry {
    DiscoveryEntry::Directory(DirectoryEntry {
        path: path.to_string(),
        name: name.to_string(),
        normalized_path: path.to_lowercase(),
        metadata,
        probe,
        key: path.to_lowercase(),
        parent: Some(("d:/games".to_string(), "D:/Games".to_string())),
    })
}

#[test]
fn the_walk_visits_each_kind_of_entry() {
    let mut result = DiscoveryResult::new(1);
    let mut sources = KeyedPaths::new();
    let mut roots = KeyedPaths::new();
    let excluded = vec!["d:/temp".to_string()];
    let mut visit = |e: DiscoveryEntry| visit_entry(&mut result, &mut sources, &mut roots, &excluded, &e);
    assert_eq!(
        visit(DiscoveryEntry::TypeUnknown { path: "D:/x".to_string(), error: "denied".to_string() }),
        EntryVisit::Warned
    );
    assert_eq!(visit(DiscoveryEntry::NotDirectory), EntryVisit::Ignored);
    assert_eq!(visit(directory("D:/Temp/a", "a", Ok(false), None)), EntryVisit::Excluded);
    assert_eq!(visit(directory("D:/$Recycle.Bin", "$Recycle.Bin", Ok(false), None)), EntryVisit::Excluded);
    assert_eq!(visit(directory("D:/Link", "Link", Ok(true), None)), EntryVisit::Ignored);
    assert_eq!(
        visit(directory("D:/Games", "Games", Ok(false), None)),
        EntryVisit::Enqueue("D:/Games".to_string())
    );
    assert_eq!(
        visit(directory("D:/Games/wonderfulVideos1", "wonderfulVideos1", Ok(false), Some(Ok(true)))),
        EntryVisit::Probed { registered: true }
    );
    assert_eq!(
        visit(directory("D:/Games/wonderfulVideos1", "wonderfulVideos1", Ok(false), Some(Ok(true)))),
        EntryVisit::Probed { registered: false }
    );
    assert_eq!(
        visit(directory("D:/Games/wonderfulVideos2", "wonderfulVideos2", Ok(false), Some(Ok(false)))),
        EntryVisit::Probed { registered: false }
    );
    assert_eq!(
        visit(directory("D:/Games/wonderfulVideos3", "wonderfulVideos3", Err("gone".to_string()), None)),
        EntryVisit::Warned
    );
    assert_eq!(result.validated_source_dir_count, 1);
    assert_eq!(result.skipped_directory_count, 2);
    assert_eq!(sources.entries.len(), 1);
    assert_eq!(roots.entries, vec![("d:/games".to_string(), "D:/Games".to_string())]);
    assert_eq!(result.warnings[0], "无法读取目录 D:/x：denied");
}

#[test]
fn the_walk_is_breadth_first_and_stops_on_cancel() {
    let mut result = DiscoveryResult::new(1);
    let mut queue: Vec<String> = vec!["D:/".to_string()];
    match next_directory(&mut result, &mut queue, false) {
        WalkNext::Visit(d) => assert_eq!(d, "D:/"),
        _ => panic!("the root is searched first"),
    }
    enqueue_visit(&mut queue, EntryVisit::Enqueue("D:/a".to_string()));
    enqueue_visit(&mut queue, EntryVisit::Ignored);
    enqueue_visit(&mut queue, EntryVisit::Enqueue("D:/b".to_string()));
    match next_directory(&mut result, &mut queue, false) {
        WalkNext::Visit(d) => assert_eq!(d, "D:/a"),
        _ => panic!("the oldest directory comes next"),
    }
    assert!(!stop_if_cancelled(&mut result, false));
    assert!(!result.cancelled);
    assert!(matches!(next_directory(&mut result, &mut queue, true), WalkNext::Cancelled));
    assert!(result.cancelled);
    assert_eq!(queue, vec!["D:/b".to_string()]);
    let mut empty: Vec<String> = Vec::new();
    let mut fresh = DiscoveryResult::new(1);
    assert!(matches!(next_directory(&mut fresh, &mut empty, false), WalkNext::Exhausted));
}
