use braid::rpc::{dispatch_request, under_poisoned_lock, RpcAction};

const READ_ONLY: [&str; 2] = ["braid_status", "braid_query"];

fn dispatch(line: &str) -> RpcAction {
    dispatch_request(line, &READ_ONLY)
}

#[test]
fn blank_lines_are_skipped_before_parsing() {
    assert_eq!(dispatch(""), RpcAction::Blank);
    assert_eq!(dispatch("   \t"), RpcAction::Blank);
}

#[test]
fn non_json_line_is_a_parse_error() {
    assert_eq!(dispatch("{not json"), RpcAction::ParseError);
}

#[test]
fn daemon_methods() {
    assert_eq!(dispatch(r#"{"jsonrpc":"2.0","id":1,"method":"daemon/shutdown"}"#), RpcAction::Shutdown);
    assert_eq!(dispatch(r#"{"jsonrpc":"2.0","id":2,"method":"daemon/status"}"#), RpcAction::Status);
    assert_eq!(dispatch(r#"  {"id":3,"method":"ping"}  "#), RpcAction::Ping);
}

#[test]
fn mcp_handshake_methods() {
    assert_eq!(dispatch(r#"{"id":1,"method":"initialize","params":{}}"#), RpcAction::Initialize);
    assert_eq!(dispatch(r#"{"id":1,"method":"initialized"}"#), RpcAction::Initialized);
    assert_eq!(dispatch(r#"{"method":"initialized"}"#), RpcAction::Skip);
    assert_eq!(dispatch(r#"{"id":4,"method":"tools/list"}"#), RpcAction::ToolsList);
}

#[test]
fn notifications_get_no_answer() {
    assert_eq!(dispatch(r#"{"method":"notifications/cancelled"}"#), RpcAction::Skip);
    assert_eq!(dispatch(r#"{"method":"notifications/progress"}"#), RpcAction::Skip);
}

#[test]
fn unknown_or_missing_method_is_not_found() {
    assert_eq!(dispatch(r#"{"id":5,"method":"bogus"}"#), RpcAction::MethodNotFound);
    assert_eq!(dispatch(r#"{"id":5}"#), RpcAction::MethodNotFound);
    assert_eq!(dispatch("[1,2,3]"), RpcAction::MethodNotFound);
}

#[test]
fn tool_calls_split_read_and_write_paths() {
    assert_eq!(
        dispatch(r#"{"id":6,"method":"tools/call","params":{"name":"braid_status","arguments":{}}}"#),
        RpcAction::ToolCall { read_only: true, full_checkpoint: false }
    );
    assert_eq!(
        dispatch(r#"{"id":7,"method":"tools/call","params":{"name":"braid_observe","arguments":{}}}"#),
        RpcAction::ToolCall { read_only: false, full_checkpoint: false }
    );
    assert_eq!(
        dispatch(r#"{"id":8,"method":"tools/call"}"#),
        RpcAction::ToolCall { read_only: false, full_checkpoint: false }
    );
}

#[test]
fn harvest_commit_triggers_full_checkpoint() {
    assert_eq!(
        dispatch(r#"{"id":9,"method":"tools/call","params":{"name":"braid_harvest","arguments":{"commit":true}}}"#),
        RpcAction::ToolCall { read_only: false, full_checkpoint: true }
    );
    assert_eq!(
        dispatch(r#"{"id":9,"method":"tools/call","params":{"name":"braid_harvest","arguments":{"commit":false}}}"#),
        RpcAction::ToolCall { read_only: false, full_checkpoint: false }
    );
    assert_eq!(
        dispatch(r#"{"id":9,"method":"tools/call","params":{"name":"braid_harvest","arguments":{"commit":"yes"}}}"#),
        RpcAction::ToolCall { read_only: false, full_checkpoint: false }
    );
}

#[test]
fn poisoned_lock_serves_only_shutdown_and_tool_calls() {
    assert_eq!(under_poisoned_lock(RpcAction::Shutdown), RpcAction::Shutdown);
    assert_eq!(
        under_poisoned_lock(RpcAction::ToolCall { read_only: false, full_checkpoint: true }),
        RpcAction::ToolCall { read_only: false, full_checkpoint: true }
    );
    assert_eq!(under_poisoned_lock(RpcAction::Ping), RpcAction::Unavailable);
    assert_eq!(under_poisoned_lock(RpcAction::Skip), RpcAction::Unavailable);
    assert_eq!(under_poisoned_lock(RpcAction::ParseError), RpcAction::ParseError);
}
