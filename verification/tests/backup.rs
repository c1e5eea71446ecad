use chrono::{DateTime, Duration, Utc};
use smarthb::backup::{
    count_query, generate_filename, integrity_verdict, is_due, latest_created_at, needs_catchup,
    parse_timestamp_from_filename, perform_backup_with_cipher, rehearsal_outcome, rehearsal_tables,
    rotation_victims, scan_entries, sort_by_time, timestamped_filename, BackupLayer, BackupMetadata, DirFile,
    TableCount, FILENAME_PREFIX, FILENAME_SUFFIX,
};
use smarthb::error::AppError;

fn secs(t: DateTime<Utc>) -> i64 {
    t.timestamp()
}

fn file(name: &str) -> DirFile {
    DirFile { path: format!("/backups/exit/{}", name), name: Some(name.to_string()), size_bytes: 5 }
}

#[test]
fn max_keep_matches_prd_policy() {
    assert_eq!(BackupLayer::Exit.max_keep(), 5);
    assert_eq!(BackupLayer::Hourly.max_keep(), 12);
    assert_eq!(BackupLayer::Daily.max_keep(), 14);
    assert_eq!(BackupLayer::Weekly.max_keep(), 4);
}

#[test]
fn catchup_interval_targets_daily_and_weekly_only() {
    assert_eq!(BackupLayer::Daily.catchup_interval(), Some(Duration::hours(24).num_seconds()));
    assert_eq!(BackupLayer::Weekly.catchup_interval(), Some(Duration::days(7).num_seconds()));
    assert_eq!(BackupLayer::Exit.catchup_interval(), None);
    assert_eq!(BackupLayer::Hourly.catchup_interval(), None);
}

#[test]
fn is_due_when_no_backup_exists() {
    let now = Utc::now();
    assert!(is_due(None, secs(now), Duration::hours(24).num_seconds()));
}

#[test]
fn is_due_only_after_interval_elapsed() {
    let now = Utc::now();
    let interval = Duration::hours(24);
    assert!(!is_due(Some(secs(now - Duration::hours(23))), secs(now), interval.num_seconds()));
    assert!(is_due(Some(secs(now - interval)), secs(now), interval.num_seconds()));
    assert!(is_due(Some(secs(now - Duration::hours(25))), secs(now), interval.num_seconds()));
}

#[test]
fn is_due_weekly_interval() {
    let now = Utc::now();
    let interval = Duration::days(7);
    assert!(!is_due(Some(secs(now - Duration::days(6))), secs(now), interval.num_seconds()));
    assert!(is_due(Some(secs(now - Duration::days(8))), secs(now), interval.num_seconds()));
}

#[test]
fn is_due_handles_extreme_times_without_overflow() {
    assert!(is_due(Some(i64::MIN), i64::MAX, 86400));
    assert!(!is_due(Some(i64::MAX), i64::MIN, 86400));
}

#[test]
fn needs_catchup_only_for_periodic_layers() {
    assert!(needs_catchup(BackupLayer::Daily, None, 0));
    assert!(!needs_catchup(BackupLayer::Exit, None, 0));
    assert!(!needs_catchup(BackupLayer::Weekly, Some(0), 6 * 86400));
    assert!(needs_catchup(BackupLayer::Weekly, Some(0), 7 * 86400));
}

#[test]
fn subdir_paths_match_layer() {
    assert_eq!(BackupLayer::Exit.subdir(), "exit");
    assert_eq!(BackupLayer::Hourly.subdir(), "hourly");
    assert_eq!(BackupLayer::Daily.subdir(), "daily");
    assert_eq!(BackupLayer::Weekly.subdir(), "weekly");
}

#[test]
fn filename_format_is_round_trip() {
    let now = DateTime::parse_from_rfc3339("2026-05-19T15:30:45Z").unwrap().with_timezone(&Utc);
    let name = generate_filename(secs(now));
    assert_eq!(name, "app_20260519_153045.db");
    assert!(name.starts_with(FILENAME_PREFIX));
    assert!(name.ends_with(FILENAME_SUFFIX));
    let parsed = parse_timestamp_from_filename(&name).expect("타임스탬프 파싱 성공");
    assert_eq!(parsed, now.timestamp());
}

#[test]
fn timestamped_filename_uses_prefix_and_suffix() {
    assert_eq!(timestamped_filename("rollback_", ".bak", 0), "rollback_19700101_000000.bak");
}

#[test]
fn parse_rejects_invalid_filename_patterns() {
    assert!(parse_timestamp_from_filename("backup.db").is_none());
    assert!(parse_timestamp_from_filename("app_20260519.db").is_none());
    assert!(parse_timestamp_from_filename("app_invalid_date.db").is_none());
    assert!(parse_timestamp_from_filename("app_20260519_153045.txt").is_none());
    assert!(parse_timestamp_from_filename("app_.db").is_none());
    assert!(parse_timestamp_from_filename("app_20260230_120000.db").is_none(), "no such day");
}

#[test]
fn scan_dir_ignores_unrelated_files() {
    let files = vec![
        file("app_20260519_120000.db"),
        file("README.txt"),
        file("app_20260519_100000.db"),
        file("other.db"),
        DirFile { path: "/backups/exit/\u{fffd}".to_string(), name: None, size_bytes: 1 },
    ];
    let entries = scan_entries(BackupLayer::Exit, files);
    assert_eq!(entries.len(), 2);
    assert!(entries[0].path.contains("100000"));
    assert!(entries[1].path.contains("120000"));
    assert_eq!(entries[0].layer, BackupLayer::Exit);
    assert_eq!(entries[0].size_bytes, 5);
}

#[test]
fn list_backups_sync_returns_empty_when_no_backups() {
    assert!(scan_entries(BackupLayer::Daily, Vec::new()).is_empty());
    assert_eq!(latest_created_at(&Vec::new()), None);
}

#[test]
fn rotation_keeps_only_max_keep_files() {
    let mut files = Vec::new();
    for i in 0..12 {
        files.push(file(&format!("2026051{:01}_120000", i % 10)));
        files.push(file(&format!("app_2026051{:01}_1200{:02}.db", i % 10, i)));
    }
    let entries = scan_entries(BackupLayer::Exit, files);
    assert_eq!(entries.len(), 12);
    let victims = rotation_victims(&entries, BackupLayer::Exit.max_keep());
    assert_eq!(entries.len() - victims.len(), BackupLayer::Exit.max_keep());
}

#[test]
fn rotation_deletes_oldest_first() {
    let files = vec![file("app_20260301_120000.db"), file("app_20260101_120000.db"), file("app_20260201_120000.db")];
    let entries = scan_entries(BackupLayer::Exit, files);
    let victims = rotation_victims(&entries, 2);
    assert_eq!(victims, vec!["/backups/exit/app_20260101_120000.db".to_string()]);
    assert!(rotation_victims(&entries, 3).is_empty());
    assert_eq!(latest_created_at(&entries), parse_timestamp_from_filename("app_20260301_120000.db"));
}

#[test]
fn sort_by_time_orders_both_ways() {
    let m = |t: i64| BackupMetadata { path: t.to_string(), layer: BackupLayer::Hourly, created_at: t, size_bytes: 0 };
    let sorted = sort_by_time(vec![m(3), m(1), m(2), m(1)], true);
    let times: Vec<i64> = sorted.iter().map(|x| x.created_at).collect();
    assert_eq!(times, vec![3, 2, 1, 1]);
    let sorted = sort_by_time(vec![m(3), m(1), m(2)], false);
    let times: Vec<i64> = sorted.iter().map(|x| x.created_at).collect();
    assert_eq!(times, vec![1, 2, 3]);
}

#[test]
fn create_backup_returns_friendly_error_without_cipher() {
    let result = perform_backup_with_cipher("dummy_src.db", "dummy_dst.db");
    let err = result.expect_err("cipher off 빌드에서는 에러");
    assert!(matches!(err, AppError::Backup(_)));
    let user_message: String = err.user_message();
    assert!(user_message.contains("백업"), "사용자 메시지에 '백업' 포함: {}", user_message);
}

#[test]
fn rehearsal_reports_counts_and_total() {
    let counts = vec![
        TableCount { table: "students".into(), count: 3 },
        TableCount { table: "bills".into(), count: 4 },
    ];
    let r = rehearsal_outcome("/b/app.db".into(), 10, Ok(counts));
    assert!(r.success);
    assert_eq!(r.total_rows, 7);
    assert_eq!(r.table_counts.len(), 2);
    assert!(r.integrity_detail.is_none());
    let r = rehearsal_outcome("/b/app.db".into(), 10, Err("손상".into()));
    assert!(!r.success);
    assert_eq!(r.integrity_detail.as_deref(), Some("손상"));
    assert_eq!(r.total_rows, 0);
}

#[test]
fn integrity_verdict_joins_problem_rows() {
    assert!(integrity_verdict(&vec!["ok".to_string()]).is_ok());
    assert_eq!(integrity_verdict(&vec!["bad page".into(), "bad index".into()]), Err("bad page\nbad index".to_string()));
    assert_eq!(integrity_verdict(&vec!["ok".into(), "ok".into()]), Err("ok\nok".to_string()));
    assert_eq!(integrity_verdict(&Vec::new()), Err(String::new()));
}

#[test]
fn rehearsal_tables_and_queries() {
    let t = rehearsal_tables();
    assert_eq!(t, vec!["students", "student_schedules", "regular_attendances", "makeup_attendances", "bills", "payments"]);
    assert_eq!(count_query("bills"), "SELECT COUNT(*) FROM bills");
}

#[test]
fn layers_keep_thirty_five_backups_in_all() {
    let total: usize = [BackupLayer::Exit, BackupLayer::Hourly, BackupLayer::Daily, BackupLayer::Weekly].iter().map(|l| l.max_keep()).sum();
    assert_eq!(total, 35);
}

#[test]
fn filename_round_trip_at_the_ends_of_the_range() {
    for t in [smarthb::backup::MIN_STAMP, -1, 0, 1_779_204_645, smarthb::backup::MAX_STAMP] {
        let name = generate_filename(t);
        assert_eq!(parse_timestamp_from_filename(&name), Some(t), "{}", name);
    }
    assert_eq!(generate_filename(smarthb::backup::MIN_STAMP), "app_00010101_000000.db");
    assert_eq!(generate_filename(smarthb::backup::MAX_STAMP), "app_99991231_235959.db");
}

#[test]
fn rotation_plan_removes_only_the_oldest_backups() {
    let files = || {
        vec![
            file("README.txt"),
            file("app_20260301_120000.db"),
            file("other.db"),
            file("app_20260101_120000.db"),
            file("app_20260201_120000.db"),
        ]
    };
    let victims = smarthb::backup::rotation_plan(BackupLayer::Exit, files(), 2);
    assert_eq!(victims, vec!["/backups/exit/app_20260101_120000.db".to_string()]);
    assert!(smarthb::backup::rotation_plan(BackupLayer::Exit, files(), 3).is_empty());
}
