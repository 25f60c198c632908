use braid::daemon::{
    acquire_step, lock_pid, lock_status_for, runtime_request_ident, BatchInterval, DaemonError,
    LockAttempt, LockPath, LockStatus, LockStep, RequestId, SocketPath, GROUP_COMMIT_INITIAL_INTERVAL_MS,
    GROUP_COMMIT_MIN_INTERVAL_MS, GROUP_COMMIT_SINGLE_BATCH_THRESHOLD,
};
use braid::error::{BraidError, IoFailure};

#[test]
fn socket_path_appends_filename() {
    let sp = SocketPath::new("/tmp/.braid");
    assert_eq!(sp.path(), "/tmp/.braid/daemon.sock");
}

#[test]
fn lock_path_appends_filename() {
    let lp = LockPath::new("/tmp/.braid");
    assert_eq!(lp.path(), "/tmp/.braid/daemon.lock");
}

#[test]
fn socket_path_inner_accessible() {
    let sp = SocketPath(String::from("/a/b/c.sock"));
    assert_eq!(sp.0, String::from("/a/b/c.sock"));
}

#[test]
fn lock_path_inner_accessible() {
    let lp = LockPath(String::from("/a/b/c.lock"));
    assert_eq!(lp.0, String::from("/a/b/c.lock"));
}

#[test]
fn lock_status_eq() {
    assert_eq!(LockStatus::Live(100), LockStatus::Live(100));
    assert_ne!(LockStatus::Live(100), LockStatus::Stale(100));
    assert_eq!(LockStatus::Absent, LockStatus::Absent);
}

#[test]
fn daemon_error_display_lock_held() {
    let err = DaemonError::LockHeld { pid: 1234 };
    let msg = err.to_string();
    assert!(msg.contains("error:"), "must have error prefix");
    assert!(msg.contains("why:"), "must have why section");
    assert!(msg.contains("fix:"), "must have fix section");
    assert!(msg.contains("ref:"), "must have ref section");
    assert!(msg.contains("1234"), "must include the PID");
}

#[test]
fn daemon_error_display_all_variants_structured() {
    let variants: Vec<DaemonError> = vec![
        DaemonError::LockHeld { pid: 1 },
        DaemonError::LockStale { pid: 2 },
        DaemonError::BindFailed(IoFailure::other("test")),
        DaemonError::AlreadyStopping,
        DaemonError::NotRunning,
        DaemonError::ConnectionFailed(IoFailure::other("test")),
        DaemonError::Timeout,
        DaemonError::StoreError(BraidError::Validation("test".into())),
        DaemonError::ProtocolError("bad json".into()),
    ];
    for v in &variants {
        let msg = v.to_string();
        assert!(msg.contains("error:"), "error: missing for {msg}");
        assert!(msg.contains("why:"), "why: missing for {msg}");
        assert!(msg.contains("fix:"), "fix: missing for {msg}");
        assert!(msg.contains("ref:"), "ref: missing for {msg}");
    }
}

#[test]
fn from_io_error_produces_connection_failed() {
    let io_err = IoFailure::other("test io");
    let daemon_err: DaemonError = io_err.into();
    assert!(matches!(daemon_err, DaemonError::ConnectionFailed(_)));
}

#[test]
fn from_braid_error_produces_store_error() {
    let braid_err = BraidError::Validation("test".into());
    let daemon_err: DaemonError = braid_err.into();
    assert!(matches!(daemon_err, DaemonError::StoreError(_)));
}

#[test]
fn adaptive_interval_constants_coherent() {
    assert!(GROUP_COMMIT_MIN_INTERVAL_MS < GROUP_COMMIT_INITIAL_INTERVAL_MS);
    assert!(GROUP_COMMIT_SINGLE_BATCH_THRESHOLD > 0);
}

#[test]
fn join_handles_trailing_slash_and_empty_base() {
    assert_eq!(SocketPath::new("/tmp/.braid/").path(), "/tmp/.braid/daemon.sock");
    assert_eq!(LockPath::new("").path(), "daemon.lock");
}

#[test]
fn lock_held_message_exact() {
    assert_eq!(
        DaemonError::LockHeld { pid: 7 }.to_string(),
        "error: daemon lock held\n  why: another daemon is running (pid 7)\n  fix: stop the existing daemon with `braid daemon stop`\n  ref: ADR-STORE-006"
    );
    assert_eq!(
        DaemonError::ProtocolError("bad".into()).to_string(),
        "error: daemon protocol error\n  why: bad\n  fix: ensure client sends valid JSON-RPC 2.0 messages\n  ref: ADR-STORE-006"
    );
}

#[test]
fn lock_file_pid_parsing() {
    assert_eq!(lock_pid("1234\n"), Some(1234));
    assert_eq!(lock_pid("  42  "), Some(42));
    assert_eq!(lock_pid("garbage"), None);
    assert_eq!(lock_pid(""), None);
    assert_eq!(lock_pid("4294967296"), None);
    assert_eq!(lock_status_for(5, true), LockStatus::Live(5));
    assert_eq!(lock_status_for(5, false), LockStatus::Stale(5));
}

#[test]
fn acquire_steps() {
    assert!(matches!(acquire_step(LockAttempt::Created), LockStep::Acquired));
    assert!(matches!(
        acquire_step(LockAttempt::AlreadyExists(LockStatus::Live(9))),
        LockStep::Failed(DaemonError::LockHeld { pid: 9 })
    ));
    assert!(matches!(
        acquire_step(LockAttempt::AlreadyExists(LockStatus::Stale(9))),
        LockStep::RemoveStaleAndRetry(9)
    ));
    assert!(matches!(acquire_step(LockAttempt::AlreadyExists(LockStatus::Absent)), LockStep::Retry));
    assert!(matches!(
        acquire_step(LockAttempt::OpenFailed(IoFailure::other("x"))),
        LockStep::Failed(DaemonError::BindFailed(_))
    ));
}

#[test]
fn batch_interval_adapts() {
    let mut b = BatchInterval::new();
    assert_eq!(b.interval_ms, 25);
    b.after_batch(3);
    assert_eq!(b.interval_ms, 5);
    assert_eq!(b.consecutive_singles, 0);
    for _ in 0..4 {
        b.after_batch(1);
        assert_eq!(b.interval_ms, 5);
    }
    b.after_batch(1);
    assert_eq!(b.interval_ms, 25);
    assert_eq!(b.consecutive_singles, 5);
    b.after_batch(1);
    assert_eq!(b.interval_ms, 25);
    b.after_batch(2);
    assert_eq!(b.interval_ms, 5);
}

#[test]
fn runtime_ident_is_prefix_and_sixteen_hex_digits() {
    let id = runtime_request_ident("42", 1700000000000);
    let expected = format!(":runtime/req-{}", &blake3::hash(b"42:1700000000000").to_hex()[..16]);
    assert_eq!(id, expected);
    assert_ne!(id, runtime_request_ident("43", 1700000000000));
}

#[test]
fn request_id_wraps_json_value() {
    let rid = RequestId(serde_json::Value::from(42));
    assert_eq!(rid.0, serde_json::Value::from(42));
}

#[test]
fn request_id_string_variant() {
    let rid = RequestId(serde_json::Value::from("abc-123"));
    assert_eq!(rid.0, serde_json::Value::from("abc-123"));
}

#[test]
fn request_id_null_variant() {
    let rid = RequestId(serde_json::Value::Null);
    assert!(rid.0.is_null());
}

#[test]
fn request_id_clone_is_same_document() {
    let rid = RequestId(serde_json::Value::from("req-7"));
    let copy = rid.clone();
    assert_eq!(copy.0, rid.0);
}
