use vhm_core::startup::startup_failure_presentation;

#[test]
fn startup_failures_before_database_initialization_do_not_claim_database_damage() {
    let presentation = startup_failure_presentation("failed to initialize plugin `updater`", None);

    assert_eq!(presentation.title, "瓦刻 · 启动失败");
    assert!(!presentation.offer_recovery_directory);
    assert!(presentation.message.contains("数据库初始化前"));
    assert!(presentation.message.contains("数据库和原始视频未被修改"));
    assert!(!presentation.message.contains("迁移前备份"));
}

#[test]
fn database_failures_keep_the_recovery_directory_action() {
    let recovery_dir = "fixture-data";
    let presentation = startup_failure_presentation("database migration failed", Some(recovery_dir));

    assert_eq!(presentation.title, "瓦刻 · 数据库恢复");
    assert!(presentation.offer_recovery_directory);
    assert!(presentation.message.contains("迁移前备份"));
    assert!(presentation.message.contains("fixture-data"));
}
