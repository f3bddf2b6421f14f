//! Decisions of the service boundary: how errors are reported to clients,
//! how results are summarized in the session log, and where audit logs go.

use vstd::prelude::*;
use vstd::string::StringExecFns;
use crate::error::{McpError, TerminalMcpError};
use crate::json::{JsonValue, JsonNumber, field, bool_field, str_field, number_as_i64, get_field, get_bool, get_str, number_to_i64};
use crate::text::{trimmed, trim, push_signed_decimal, signed_decimal};
use crate::tools::ToolReply;
use crate::execute::ExecuteResult;

verus! {

/// How a failed tool call is reported to the client: invalid parameters
/// (JSON-RPC -32602), an internal fault, or an error result the model sees.
#[derive(Debug)]
pub enum CallErrorKind {
    InvalidParams(String),
    Internal(String),
    Tool(String),
}

/// Maps a domain error onto the way it is reported: missing or bad
/// parameters are invalid-params errors, a failure to encode a reply is
/// internal, everything else is a tool-level error carrying its message.
pub fn map_error(err: TerminalMcpError) -> (k: CallErrorKind)
    ensures
        match err {
            TerminalMcpError::Mcp(McpError::InvalidToolParameters(msg)) => k matches CallErrorKind::InvalidParams(m) && m == msg,
            TerminalMcpError::Json(msg) => k matches CallErrorKind::Internal(m) && m == msg,
            _ => k matches CallErrorKind::Tool(m) && m@ == err.describe(),
        },
{
    match err {
        TerminalMcpError::Mcp(McpError::InvalidToolParameters(msg)) => CallErrorKind::InvalidParams(msg),
        TerminalMcpError::Json(msg) => CallErrorKind::Internal(msg),
        other => CallErrorKind::Tool(other.message()),
    }
}

/// `true` or `false`.
pub open spec fn bool_text(b: bool) -> Seq<char> {
    if b {
        "true"@
    } else {
        "false"@
    }
}

/// The exit code a reply reports, when it is an integer.
pub open spec fn reply_exit_code(reply: ToolReply) -> Option<i64> {
    match reply {
        ToolReply::Json(v) => match field(v, "exit_code"@) {
            Some(JsonValue::Number(n)) => number_as_i64(n),
            _ => None,
        },
        ToolReply::Text(_) => None,
    }
}

/// A JSON member of a reply's payload.
pub open spec fn reply_bool(reply: ToolReply, key: Seq<char>) -> Option<bool> {
    match reply {
        ToolReply::Json(v) => bool_field(v, key),
        ToolReply::Text(_) => None,
    }
}

/// A string member of a reply's payload.
pub open spec fn reply_str(reply: ToolReply, key: Seq<char>) -> Option<Seq<char>> {
    match reply {
        ToolReply::Json(v) => str_field(v, key),
        ToolReply::Text(_) => None,
    }
}

/// The session-log summary of a successful call: the exit code and timeout
/// flag of an execution (and its log file), or just whether tools changed.
pub open spec fn result_summary_text(tool_name: Seq<char>, reply: ToolReply, tools_changed: bool) -> Seq<char> {
    match (reply_exit_code(reply), reply_bool(reply, "timed_out"@)) {
        (Some(code), Some(t)) => tool_name + " ok exit_code="@ + signed_decimal(code as int)
            + " timed_out="@ + bool_text(t) + " tools_changed="@ + bool_text(tools_changed) + match reply_str(
            reply,
            "audit_log_file"@,
        ) {
            Some(f) => " log_file="@ + f,
            None => Seq::empty(),
        },
        _ => tool_name + " ok tools_changed="@ + bool_text(tools_changed),
    }
}

fn append_bool(s: &mut String, b: bool)
    ensures
        final(s)@ == old(s)@ + bool_text(b),
{
    if b {
        s.append("true");
    } else {
        s.append("false");
    }
}

/// Builds the session-log summary of a successful call.
pub fn tool_result_summary(tool_name: &str, reply: &ToolReply, tools_changed: bool) -> (s: String)
    ensures
        s@ == result_summary_text(tool_name@, *reply, tools_changed),
{
    let (code, timed_out, log_file) = match reply {
        ToolReply::Json(v) => {
            let code = match get_field(v, "exit_code") {
                Some(JsonValue::Number(n)) => number_to_i64(n),
                _ => None,
            };
            (code, get_bool(v, "timed_out"), get_str(v, "audit_log_file"))
        },
        ToolReply::Text(_) => (None, None, None),
    };
    let mut s = String::from_str(tool_name);
    match (code, timed_out) {
        (Some(c), Some(t)) => {
            s.append(" ok exit_code=");
            push_signed_decimal(&mut s, c);
            s.append(" timed_out=");
            append_bool(&mut s, t);
            s.append(" tools_changed=");
            append_bool(&mut s, tools_changed);
            match log_file {
                Some(f) => {
                    s.append(" log_file=");
                    s.append(f);
                },
                None => {},
            }
            assert(s@ =~= result_summary_text(tool_name@, *reply, tools_changed));
        },
        _ => {
            s.append(" ok tools_changed=");
            append_bool(&mut s, tools_changed);
        },
    }
    s
}

/// The session-log line of a failed call: `<tool> error <message>`.
pub fn error_summary(tool_name: &str, err: &TerminalMcpError) -> (s: String)
    ensures
        s@ == tool_name@ + " error "@ + err.describe(),
{
    let mut s = String::from_str(tool_name);
    s.append(" error ");
    let m = err.message();
    s.append(m.as_str());
    s
}

/// The audit-log directory named by `MCP_TERMINAL_LOG_DIR`, trimmed;
/// logging is off when the variable is unset or blank.
pub fn audit_dir_from_env(raw: Option<&str>) -> (dir: Option<String>)
    ensures
        match raw {
            None => dir is None,
            Some(r) => if trimmed(r@).len() == 0 {
                dir is None
            } else {
                dir matches Some(d) && d@ == trimmed(r@)
            },
        },
{
    match raw {
        None => None,
        Some(r) => {
            let t = trim(r);
            if t.as_str().is_empty() {
                None
            } else {
                Some(t)
            }
        },
    }
}

/// The bounded label under which an execution is counted: `ok`,
/// `nonzero_exit`, `timeout`, `detached` or `error`.
pub open spec fn outcome_label(res: Result<ExecuteResult, TerminalMcpError>) -> Seq<char> {
    match res {
        Err(_) => "error"@,
        Ok(r) => if r.detached_pid is Some {
            "detached"@
        } else if r.timed_out {
            "timeout"@
        } else if r.exit_code == 0 {
            "ok"@
        } else {
            "nonzero_exit"@
        },
    }
}

/// Classifies the outcome of an execution for the execution counter.
pub fn execution_outcome(res: &Result<ExecuteResult, TerminalMcpError>) -> (label: &'static str)
    ensures
        label@ == outcome_label(*res),
{
    match res {
        Err(_) => "error",
        Ok(r) => if r.detached_pid.is_some() {
            "detached"
        } else if r.timed_out {
            "timeout"
        } else if r.exit_code == 0 {
            "ok"
        } else {
            "nonzero_exit"
        },
    }
}

} // verus!
