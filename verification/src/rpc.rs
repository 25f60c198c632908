//! Dispatch of the daemon's JSON-RPC requests: what each request line read
//! from a connection asks the daemon to do.
use vstd::prelude::*;
use vstd::utf8::*;
use crate::git::{trimmed, trimmed_exec};
use crate::text::utf8;

verus! {

broadcast use vstd::utf8::group_utf8_lib;

/// An optional string as an optional character sequence.
pub open spec fn opt_text(o: Option<String>) -> Option<Seq<char>> {
    match o {
        Some(s) => Some(s@),
        None => None,
    }
}

/// The fields of a JSON-RPC request that the dispatch reads: whether it has
/// an `id` (a request, not a notification), its `method`, the tool `name` of
/// its `params`, and the `commit` flag of the tool's `arguments`.
pub struct RpcFields {
    pub has_id: bool,
    pub method: Option<String>,
    pub tool: Option<String>,
    pub commit: Option<bool>,
}

/// What `serde_json` reads from a line parsed as a JSON document, at four
/// JSON pointers: whether a value is at the first, the string at the second
/// and at the third, and the boolean at the fourth; `None` when the line is
/// not JSON.
pub uninterp spec fn json_pointer_fields(
    line: Seq<char>,
    id_ptr: Seq<char>,
    method_ptr: Seq<char>,
    tool_ptr: Seq<char>,
    commit_ptr: Seq<char>,
) -> Option<(bool, Option<Seq<char>>, Option<Seq<char>>, Option<bool>)>;

/// Parses `line` as a JSON document and reads it at four JSON pointers.
///
/// Calls `serde_json::from_str::<Value>`, then `Value::pointer` with each
/// pointer, taking `Value::as_str` or `Value::as_bool` of what is there. The
/// result is named `json_pointer_fields` of the line and the pointers.
#[verifier::external_body]
fn parse_rpc(
    line: &str,
    id_ptr: &str,
    method_ptr: &str,
    tool_ptr: &str,
    commit_ptr: &str,
) -> (r: Option<RpcFields>)
    ensures
        r is None <==> json_pointer_fields(line@, id_ptr@, method_ptr@, tool_ptr@, commit_ptr@) is None,
        r matches Some(f) ==> json_pointer_fields(line@, id_ptr@, method_ptr@, tool_ptr@, commit_ptr@)
            == Some((f.has_id, opt_text(f.method), opt_text(f.tool), f.commit)),
{
    let msg: serde_json::Value = serde_json::from_str(line).ok()?;
    Some(RpcFields {
        has_id: msg.pointer(id_ptr).is_some(),
        method: msg.pointer(method_ptr).and_then(serde_json::Value::as_str).map(str::to_owned),
        tool: msg.pointer(tool_ptr).and_then(serde_json::Value::as_str).map(str::to_owned),
        commit: msg.pointer(commit_ptr).and_then(serde_json::Value::as_bool),
    })
}

/// The request fields of a (trimmed) line: `id`, `method`, `params.name` and
/// `params.arguments.commit`.
pub open spec fn spec_rpc_fields(line: Seq<char>) -> Option<
    (bool, Option<Seq<char>>, Option<Seq<char>>, Option<bool>),
> {
    json_pointer_fields(line, "/id"@, "/method"@, "/params/name"@, "/params/arguments/commit"@)
}

/// What the daemon does with one request line.
#[derive(Clone, Copy, Debug, PartialEq, Eq, Structural)]
pub enum RpcAction {
    /// A blank line: nothing to answer.
    Blank,
    /// The line is not JSON: answer with a parse error (code -32700).
    ParseError,
    /// `daemon/shutdown`: set the shutdown flag and answer `stopping`.
    Shutdown,
    /// `daemon/status`: answer with the daemon's counters.
    Status,
    /// `initialize`: the MCP handshake.
    Initialize,
    /// `initialized` sent with an id: answer with an empty result.
    Initialized,
    /// A notification that gets no answer.
    Skip,
    /// `tools/list`.
    ToolsList,
    /// `tools/call`: on the read path (shared lock) for a read-only tool, and
    /// followed by a full checkpoint for `braid_harvest` with `commit: true`.
    ToolCall { read_only: bool, full_checkpoint: bool },
    /// `ping`: answer with an empty result.
    Ping,
    /// Any other method: answer with a method-not-found error.
    MethodNotFound,
    /// The store lock is poisoned and only a limited dispatch is available:
    /// answer with an error.
    Unavailable,
}

/// The tool names as character sequences.
pub open spec fn names_view(names: Seq<&str>) -> Seq<Seq<char>> {
    names.map_values(|n: &str| n@)
}

/// The action for parsed request fields; `read_only_tools` are the tools
/// served under the shared lock.
pub open spec fn spec_action(
    f: Option<(bool, Option<Seq<char>>, Option<Seq<char>>, Option<bool>)>,
    read_only_tools: Seq<Seq<char>>,
) -> RpcAction {
    match f {
        None => RpcAction::ParseError,
        Some((has_id, method, tool, commit)) => {
            let m = match method {
                Some(m) => m,
                None => Seq::empty(),
            };
            if m == "daemon/shutdown"@ {
                RpcAction::Shutdown
            } else if m == "daemon/status"@ {
                RpcAction::Status
            } else if m == "initialize"@ {
                RpcAction::Initialize
            } else if m == "initialized"@ {
                if has_id {
                    RpcAction::Initialized
                } else {
                    RpcAction::Skip
                }
            } else if m == "tools/list"@ {
                RpcAction::ToolsList
            } else if m == "tools/call"@ {
                RpcAction::ToolCall {
                    read_only: tool matches Some(n) && read_only_tools.contains(n),
                    full_checkpoint: commit == Some(true) && tool == Some("braid_harvest"@),
                }
            } else if m == "ping"@ {
                RpcAction::Ping
            } else if m == "notifications/cancelled"@ || m == "notifications/progress"@ {
                RpcAction::Skip
            } else {
                RpcAction::MethodNotFound
            }
        },
    }
}

/// The action for a request line: a blank line once trimmed is `Blank`,
/// otherwise the trimmed line is parsed and dispatched on its method.
pub open spec fn spec_dispatch(line: Seq<char>, read_only_tools: Seq<Seq<char>>) -> RpcAction {
    let t = trimmed(utf8(line));
    if t.len() == 0 {
        RpcAction::Blank
    } else {
        spec_action(spec_rpc_fields(decode_utf8(t)), read_only_tools)
    }
}

/// The action under a poisoned store lock: the read path and the lines that
/// need no lock are unchanged, `daemon/shutdown` and write tool calls are
/// still served, and every other request is answered as unavailable.
pub open spec fn spec_limited(a: RpcAction) -> RpcAction {
    match a {
        RpcAction::Blank => RpcAction::Blank,
        RpcAction::ParseError => RpcAction::ParseError,
        RpcAction::Shutdown => RpcAction::Shutdown,
        RpcAction::ToolCall { read_only, full_checkpoint } => RpcAction::ToolCall {
            read_only,
            full_checkpoint,
        },
        _ => RpcAction::Unavailable,
    }
}

fn text_is(s: &String, lit: &str) -> (r: bool)
    ensures
        r == (s@ == lit@),
{
    let l = lit.to_owned();
    *s == l
}

fn is_read_only(name: &String, read_only_tools: &[&str]) -> (r: bool)
    ensures
        r == names_view(read_only_tools@).contains(name@),
{
    let ghost v = names_view(read_only_tools@);
    let mut k: usize = 0;
    while k < read_only_tools.len()
        invariant
            k <= read_only_tools@.len(),
            v == names_view(read_only_tools@),
            forall|j: int| 0 <= j < k ==> v[j] != name@,
        decreases read_only_tools.len() - k,
    {
        if text_is(name, read_only_tools[k]) {
            assert(v[k as int] == name@);
            return true;
        }
        k = k + 1;
    }
    false
}

fn action_of(f: &RpcFields, read_only_tools: &[&str]) -> (r: RpcAction)
    ensures
        r == spec_action(
            Some((f.has_id, opt_text(f.method), opt_text(f.tool), f.commit)),
            names_view(read_only_tools@),
        ),
{
    let m = match &f.method {
        Some(m) => m.clone(),
        None => String::new(),
    };
    if text_is(&m, "daemon/shutdown") {
        RpcAction::Shutdown
    } else if text_is(&m, "daemon/status") {
        RpcAction::Status
    } else if text_is(&m, "initialize") {
        RpcAction::Initialize
    } else if text_is(&m, "initialized") {
        if f.has_id {
            RpcAction::Initialized
        } else {
            RpcAction::Skip
        }
    } else if text_is(&m, "tools/list") {
        RpcAction::ToolsList
    } else if text_is(&m, "tools/call") {
        let (read_only, harvest) = match &f.tool {
            Some(n) => (is_read_only(n, read_only_tools), text_is(n, "braid_harvest")),
            None => (false, false),
        };
        let commit = match f.commit {
            Some(c) => c,
            None => false,
        };
        RpcAction::ToolCall { read_only, full_checkpoint: commit && harvest }
    } else if text_is(&m, "ping") {
        RpcAction::Ping
    } else if text_is(&m, "notifications/cancelled") || text_is(&m, "notifications/progress") {
        RpcAction::Skip
    } else {
        RpcAction::MethodNotFound
    }
}

/// Decide what the daemon does with one line read from a connection: skip a
/// blank line, answer a line that is not JSON with a parse error, and
/// otherwise dispatch on the request's method. `read_only_tools` names the
/// tools served on the read path.
pub fn dispatch_request(line: &str, read_only_tools: &[&str]) -> (r: RpcAction)
    ensures
        r == spec_dispatch(line@, names_view(read_only_tools@)),
{
    let t = trimmed_exec(line.as_bytes());
    let tb = t.as_str().as_bytes();
    if tb.len() == 0 {
        return RpcAction::Blank;
    }
    match parse_rpc(t.as_str(), "/id", "/method", "/params/name", "/params/arguments/commit") {
        None => RpcAction::ParseError,
        Some(f) => action_of(&f, read_only_tools),
    }
}

/// The dispatch under a poisoned store lock (see `spec_limited`).
pub fn under_poisoned_lock(a: RpcAction) -> (r: RpcAction)
    ensures
        r == spec_limited(a),
{
    match a {
        RpcAction::Blank => RpcAction::Blank,
        RpcAction::ParseError => RpcAction::ParseError,
        RpcAction::Shutdown => RpcAction::Shutdown,
        RpcAction::ToolCall { read_only, full_checkpoint } => RpcAction::ToolCall {
            read_only,
            full_checkpoint,
        },
        _ => RpcAction::Unavailable,
    }
}

} // verus!
