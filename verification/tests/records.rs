use smarthb::audit::{audit_log_limit, cleanup_sql, list_logs_sql, record_sql, AuditEventType};
use smarthb::codes::{entry_from_columns, entry_not_found, insert_binds, map_code_unique, CodeTable, NewCode};
use smarthb::db::{
    check_data_dir, check_db_present, connection_pragmas, create_if_missing, db_url, has_pending_migrations,
    PoolCell,
};
use smarthb::error::AppError;

#[test]
fn audit_event_type_codes_are_kebab_case() {
    assert_eq!(AuditEventType::PasswordChange.as_code(), "password-change");
    assert_eq!(AuditEventType::BackupRestored.as_code(), "backup-restored");
    assert_eq!(AuditEventType::LockForced.as_code(), "lock-forced");
}

#[test]
fn audit_codes_cover_every_kind_once() {
    let all = [
        AuditEventType::PasswordChange,
        AuditEventType::BackupCreated,
        AuditEventType::BackupRestored,
        AuditEventType::LockForced,
        AuditEventType::IntegrityCheckFailed,
        AuditEventType::StudentCreated,
        AuditEventType::StudentUpdated,
        AuditEventType::StudentWithdrawn,
        AuditEventType::StudentReinstated,
        AuditEventType::AttendanceToggled,
        AuditEventType::SecurityEvent,
        AuditEventType::MakeupCreated,
        AuditEventType::MakeupCancelled,
        AuditEventType::MakeupExpired,
        AuditEventType::BillConfirmed,
        AuditEventType::AttendanceRescheduled,
        AuditEventType::ScheduleChangedWithRegen,
    ];
    let codes: Vec<&str> = all.iter().map(|t| t.as_code()).collect();
    for (i, a) in codes.iter().enumerate() {
        assert!(a.chars().all(|c| c.is_ascii_lowercase() || c == '-'));
        for b in &codes[i + 1..] {
            assert_ne!(a, b);
        }
    }
    assert_eq!(AuditEventType::ScheduleChangedWithRegen.as_code(), "schedule-changed-with-regen");
}

#[test]
fn audit_listing_limit_defaults_and_caps() {
    assert_eq!(audit_log_limit(None), 100);
    assert_eq!(audit_log_limit(Some(5)), 5);
    assert_eq!(audit_log_limit(Some(1000)), 1000);
    assert_eq!(audit_log_limit(Some(1001)), 1000);
    assert_eq!(audit_log_limit(Some(0)), 0);
}

#[test]
fn audit_queries() {
    assert_eq!(record_sql(), "INSERT INTO audit_logs (event_type, event_subject, details) VALUES (?, ?, ?)");
    assert!(list_logs_sql(true).contains("WHERE created_at >= ?"));
    assert!(!list_logs_sql(false).contains("WHERE"));
    assert_eq!(cleanup_sql(), "DELETE FROM audit_logs WHERE created_at < ?");
}

#[test]
fn code_table_sql_per_table() {
    assert_eq!(CodeTable::Schools.table_name(), "schools");
    assert_eq!(CodeTable::CardCompanies.count_sql(), "SELECT COUNT(*) AS cnt FROM card_companies");
    assert!(CodeTable::PaymentMethods.list_sql().ends_with("ORDER BY display_order ASC, label ASC LIMIT ? OFFSET ?"));
    assert!(CodeTable::Schools.insert_sql().contains("COALESCE(?, 'etc')"));
    assert!(CodeTable::Schools.update_sql().contains("school_type = COALESCE(?, school_type)"));
    assert!(CodeTable::Schools.update_binds_extra());
    assert!(!CodeTable::CardCompanies.update_binds_extra());
    assert_eq!(CodeTable::Schools.reorder_sql(), "UPDATE schools SET sort_order = ? WHERE id = ?");
    assert_eq!(CodeTable::PaymentMethods.reorder_sql(), "UPDATE payment_methods SET display_order = ? WHERE id = ?");
}

#[test]
fn insert_binds_fill_label_and_order() {
    let p = NewCode { code: "cash".into(), label: None, extra: Some("x".into()), sort_order: None };
    let b = insert_binds(CodeTable::PaymentMethods, &p);
    assert_eq!(b.code, "cash");
    assert_eq!(b.second.as_deref(), Some("cash"));
    assert_eq!(b.sort_order, 0);
    let p = NewCode { code: "한빛초".into(), label: Some("ignored".into()), extra: Some("elementary".into()), sort_order: Some(3) };
    let b = insert_binds(CodeTable::Schools, &p);
    assert_eq!(b.second.as_deref(), Some("elementary"));
    assert_eq!(b.sort_order, 3);
    let p = NewCode { code: "card".into(), label: Some("카드".into()), extra: None, sort_order: Some(2) };
    assert_eq!(insert_binds(CodeTable::CardCompanies, &p).second.as_deref(), Some("카드"));
}

#[test]
fn duplicate_codes_get_a_user_facing_message() {
    let e = map_code_unique("cash", CodeTable::PaymentMethods, Some("UNIQUE constraint failed: payment_methods.code"));
    assert_eq!(e, Some(AppError::UserFacing("결제 수단 코드 'cash' 은(는) 이미 등록되어 있습니다.".into())));
    let e = map_code_unique("한빛초", CodeTable::Schools, Some("UNIQUE constraint failed"));
    assert_eq!(e.unwrap().user_message(), "학교명 '한빛초' 은(는) 이미 등록되어 있습니다.");
    assert_eq!(map_code_unique("x", CodeTable::CardCompanies, Some("FOREIGN KEY constraint failed")), None);
    assert_eq!(map_code_unique("x", CodeTable::CardCompanies, None), None);
    assert_eq!(entry_not_found(CodeTable::CardCompanies, 42).user_message(), "card_companies 항목을 찾을 수 없습니다 (id=42).");
    assert_eq!(entry_not_found(CodeTable::Schools, -1).user_message(), "schools 항목을 찾을 수 없습니다 (id=-1).");
}

#[test]
fn entry_from_columns_reads_active_flag() {
    assert!(entry_from_columns(1, "c".into(), "l".into(), None, 0, 1).is_active);
    assert!(!entry_from_columns(1, "c".into(), "l".into(), None, 0, 0).is_active);
    assert!(entry_from_columns(1, "c".into(), "l".into(), None, 0, -3).is_active);
}

#[test]
fn db_url_handles_relative_path() {
    let url = db_url("test.db");
    assert!(url.starts_with("sqlite:///"));
    assert!(url.ends_with("test.db"));
}

#[test]
fn db_url_handles_absolute_path() {
    let url = db_url("/tmp/test.db");
    assert!(url.starts_with("sqlite:///"));
    assert!(url.ends_with("test.db"));
    assert_eq!(url, "sqlite:///tmp/test.db");
    assert_eq!(db_url("C:\\temp\\test.db"), "sqlite:///C:/temp/test.db");
    assert_eq!(db_url("\\\\srv/share/a.db"), "sqlite:///srv/share/a.db");
}

#[test]
fn pool_uninitialized_returns_friendly_error() {
    let cell: PoolCell<u32> = PoolCell::new();
    assert!(!cell.is_initialized());
    let err = cell.pool().expect_err("미초기화 상태에서 에러");
    let msg: String = err.user_message();
    assert!(msg.contains("설정") || msg.contains("잠금"));
}

#[test]
fn pool_cell_keeps_the_first_pool() {
    let mut cell: PoolCell<u32> = PoolCell::new();
    cell.install(7);
    cell.install(9);
    assert!(cell.is_initialized());
    assert_eq!(cell.pool().ok(), Some(&7));
}

#[test]
fn database_presence_guards() {
    assert!(check_db_present(false, false, false).is_ok());
    assert!(check_db_present(true, true, false).is_ok());
    assert_eq!(
        check_db_present(true, false, true).unwrap_err().user_message(),
        "DB 파일(app.db)이 없습니다. 클라우드 동기화가 완료된 후 다시 시도해 주세요."
    );
    assert!(check_db_present(true, false, false).unwrap_err().user_message().ends_with("(설정 파일 salt.bin 도 확인되지 않습니다)"));
    assert!(check_data_dir(true, false).is_err());
    assert!(check_data_dir(false, false).is_ok());
    assert!(create_if_missing(false));
    assert!(!create_if_missing(true));
}

#[test]
fn migrations_snapshot_only_when_behind() {
    assert!(!has_pending_migrations(&vec![1, 5, 3], None), "new database");
    assert!(has_pending_migrations(&vec![1, 5, 3], Some(3)));
    assert!(!has_pending_migrations(&vec![1, 5, 3], Some(5)));
    assert!(!has_pending_migrations(&Vec::new(), Some(0)));
    assert_eq!(connection_pragmas()[0], "PRAGMA journal_mode=WAL");
    assert_eq!(connection_pragmas().len(), 5);
}

#[test]
fn entry_not_found_writes_every_i64_in_decimal() {
    for id in [0i64, 9, 10, 1234567890, i64::MAX, -7, i64::MIN] {
        assert_eq!(
            entry_not_found(CodeTable::Schools, id).user_message(),
            format!("schools 항목을 찾을 수 없습니다 (id={}).", id)
        );
    }
}
