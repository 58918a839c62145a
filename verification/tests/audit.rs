//! The record of calls.

use std::path::PathBuf;

use overfry::audit::{
    classify, maybe_rotate, needs_rotation, rotated_name, AuditLog, LogFile, Rotation, MAX_LOG_SIZE, RING_CAPACITY,
};
use overfry::error::AppError;
use overfry::models::{AuditEntry, AuditResult, Timestamp};
use uuid::Uuid;

fn make_entry() -> AuditEntry {
    AuditEntry {
        id: Uuid::new_v4(),
        connection_id: Uuid::new_v4(),
        tool_name: "test_tool".to_string(),
        path: None,
        timestamp: Timestamp { seconds: 0, nanos: 0 },
        session_id: None,
        result: AuditResult::Success,
    }
}

#[test]
fn audit_append_no_panic_on_bad_path() {
    let mut log = AuditLog::new(PathBuf::from("/nonexistent/path/that/does/not/exist/audit.ndjson"));
    log.append(make_entry());
}

#[test]
fn audit_append_count_increments() {
    let mut log = AuditLog::new(PathBuf::from("audit.ndjson"));
    assert_eq!(log.append_count(), 0);
    log.append(make_entry());
    assert_eq!(log.append_count(), 1);
}

#[test]
fn audit_ring_stores_entries() {
    let mut log = AuditLog::new(PathBuf::from("audit.ndjson"));
    log.append(make_entry());
    log.append(make_entry());
    let recent = log.recent(10);
    assert_eq!(recent.len(), 2);
}

#[test]
fn audit_ring_caps_at_capacity() {
    let mut log = AuditLog::new(PathBuf::from("audit.ndjson"));
    for _ in 0..=RING_CAPACITY {
        log.append(make_entry());
    }
    let recent = log.recent(1000);
    assert!(recent.len() <= RING_CAPACITY);
}

#[test]
fn the_latest_entries_come_first_and_the_oldest_go() {
    let mut log = AuditLog::new(PathBuf::from("audit.ndjson"));
    let ids: Vec<Uuid> = (0..RING_CAPACITY + 1)
        .map(|_| {
            let e = make_entry();
            let id = e.id;
            log.append(e);
            id
        })
        .collect();
    let recent = log.recent(1000);
    assert_eq!(recent.len(), RING_CAPACITY);
    assert_eq!(recent[0].id, ids[RING_CAPACITY]);
    assert_eq!(recent[RING_CAPACITY - 1].id, ids[1]);
    assert_eq!(log.recent(3).len(), 3);
    assert_eq!(log.recent(0).len(), 0);
}

#[test]
fn the_size_is_looked_at_now_and_then() {
    let mut log = AuditLog::new(PathBuf::from("audit.ndjson"));
    assert!(log.append(make_entry()));
    for _ in 0..99 {
        assert!(!log.append(make_entry()));
    }
    assert!(log.append(make_entry()));
    assert_eq!(log.log_path(), &PathBuf::from("audit.ndjson"));
}

#[test]
fn logs_that_are_too_large_are_rotated() {
    assert!(!needs_rotation(MAX_LOG_SIZE));
    assert!(needs_rotation(MAX_LOG_SIZE + 1));
    assert!(maybe_rotate(MAX_LOG_SIZE).is_empty());
    assert_eq!(
        maybe_rotate(MAX_LOG_SIZE + 1),
        vec![
            Rotation::Remove(LogFile::Rotated(2)),
            Rotation::Rename { from: LogFile::Rotated(1), to: LogFile::Rotated(2) },
            Rotation::Rename { from: LogFile::Current, to: LogFile::Rotated(1) },
        ]
    );
    assert_eq!(rotated_name("audit", "ndjson", 1), "audit.1.ndjson");
}

#[test]
fn outcomes_of_calls() {
    assert!(matches!(classify(&Ok("x".to_string())), AuditResult::Success));
    match classify(&Err(AppError::PathTraversal("x".to_string()))) {
        AuditResult::Denied(m) => assert_eq!(m, "path traversal attempt: x"),
        _ => panic!("not denied"),
    }
    assert!(matches!(classify(&Err(AppError::OperationNotPermitted("x".to_string()))), AuditResult::Denied(_)));
    match classify(&Err(AppError::FileTooLarge(7))) {
        AuditResult::Error(m) => assert_eq!(m, "file too large: 7 bytes"),
        _ => panic!("no error"),
    }
}

#[test]
fn errors_have_messages() {
    let messages: Vec<String> = vec![
        AppError::SymlinkLoop("x".to_string()).message(),
        AppError::PortConflict("x".to_string()).message(),
        AppError::ServerAlreadyRunning.message(),
        AppError::ServerNotFound.message(),
        AppError::ConnectionNotFound.message(),
        AppError::Io("x".to_string()).message(),
        AppError::Store("x".to_string()).message(),
        AppError::Upstream("x".to_string()).message(),
        AppError::other("x").message(),
    ];
    assert_eq!(
        messages,
        vec![
            "symlink loop detected: x",
            "port conflict: x",
            "server already running",
            "server not found",
            "connection not found",
            "io error: x",
            "store error: x",
            "upstream error: x",
            "x",
        ]
    );
}
