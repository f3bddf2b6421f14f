use terminal_mcp::error::{McpError, ScriptError, ShellError, TerminalMcpError};
use terminal_mcp::json::{to_json_string, JsonNumber, JsonValue};
use terminal_mcp::execute::{completed_result, detached_result, timed_out_result};
use terminal_mcp::service::{
    audit_dir_from_env, error_summary, execution_outcome, map_error, tool_result_summary, CallErrorKind,
};
use terminal_mcp::tools::ToolReply;
use terminal_mcp::SERVER_INSTRUCTIONS;

fn obj(members: Vec<(&str, JsonValue)>) -> JsonValue {
    JsonValue::Object(members.into_iter().map(|(k, v)| (k.to_string(), v)).collect())
}

#[test]
fn server_instructions_name_tools_and_safety_note() {
    let blurb = SERVER_INSTRUCTIONS.to_lowercase();
    assert!(!blurb.trim().is_empty(), "instructions blurb must not be blank");
    for term in ["terminal_execute", "script", "root", "mcp_terminal_inherit_env"] {
        assert!(blurb.contains(term), "instructions blurb should mention '{term}'");
    }
}

#[test]
fn errors_map_to_call_kinds() {
    match map_error(TerminalMcpError::Mcp(McpError::InvalidToolParameters("Missing required parameter: command".to_string()))) {
        CallErrorKind::InvalidParams(m) => assert_eq!(m, "Missing required parameter: command"),
        other => panic!("unexpected {:?}", other),
    }
    match map_error(TerminalMcpError::Json("bad".to_string())) {
        CallErrorKind::Internal(m) => assert_eq!(m, "bad"),
        other => panic!("unexpected {:?}", other),
    }
    match map_error(TerminalMcpError::Mcp(McpError::ToolNotFound("nonexistent_tool".to_string()))) {
        CallErrorKind::Tool(m) => assert_eq!(m, "MCP protocol error: Tool not found: nonexistent_tool"),
        other => panic!("unexpected {:?}", other),
    }
    match map_error(TerminalMcpError::Script(ScriptError::NotFound("does_not_exist".to_string()))) {
        CallErrorKind::Tool(m) => assert!(m.contains("not found")),
        other => panic!("unexpected {:?}", other),
    }
}

#[test]
fn error_messages() {
    assert_eq!(TerminalMcpError::Shell(ShellError::Timeout(30)).message(), "Shell error: Command timed out after 30 seconds");
    assert_eq!(
        TerminalMcpError::Shell(ShellError::InvalidCommand("x".to_string())).message(),
        "Shell error: Invalid command: x"
    );
    assert_eq!(TerminalMcpError::Io("disk full".to_string()).message(), "IO error: disk full");
    assert_eq!(
        TerminalMcpError::Script(ScriptError::InvalidName("n".to_string())).message(),
        "Script error: Invalid script name: n"
    );
    assert_eq!(ShellError::CommandNotFound("c".to_string()).message(), "Command not found: c");
}

#[test]
fn result_summary_of_execution() {
    let payload = obj(vec![
        ("exit_code", JsonValue::Number(JsonNumber::PosInt(0))),
        ("stdout", JsonValue::Str("x".to_string())),
        ("timed_out", JsonValue::Bool(false)),
        ("audit_log_file", JsonValue::Str("p_001.log".to_string())),
    ]);
    assert_eq!(
        tool_result_summary("terminal_execute", &ToolReply::Json(payload), false),
        "terminal_execute ok exit_code=0 timed_out=false tools_changed=false log_file=p_001.log"
    );
    let payload = obj(vec![
        ("exit_code", JsonValue::Number(JsonNumber::NegInt(-1))),
        ("timed_out", JsonValue::Bool(true)),
    ]);
    assert_eq!(
        tool_result_summary("terminal_execute", &ToolReply::Json(payload), false),
        "terminal_execute ok exit_code=-1 timed_out=true tools_changed=false"
    );
}

#[test]
fn result_summary_of_other_replies() {
    assert_eq!(
        tool_result_summary("terminal_store_script", &ToolReply::Text("Script 'a' stored.".to_string()), true),
        "terminal_store_script ok tools_changed=true"
    );
    assert_eq!(
        tool_result_summary("terminal_list_scripts", &ToolReply::Json(JsonValue::Array(vec![])), false),
        "terminal_list_scripts ok tools_changed=false"
    );
    // An exit code without a timeout flag is not an execution payload.
    let partial = obj(vec![("exit_code", JsonValue::Number(JsonNumber::PosInt(1)))]);
    assert_eq!(tool_result_summary("t", &ToolReply::Json(partial), false), "t ok tools_changed=false");
}

#[test]
fn error_summary_line() {
    let e = TerminalMcpError::Mcp(McpError::ToolNotFound("x".to_string()));
    assert_eq!(error_summary("x", &e), "x error MCP protocol error: Tool not found: x");
}

#[test]
fn audit_dir_selection() {
    assert_eq!(audit_dir_from_env(None), None);
    assert_eq!(audit_dir_from_env(Some("   ")), None);
    assert_eq!(audit_dir_from_env(Some("")), None);
    assert_eq!(audit_dir_from_env(Some("  /var/log/mcp \n")), Some("/var/log/mcp".to_string()));
}

#[test]
fn json_rendering() {
    let v = obj(vec![
        ("a", JsonValue::Number(JsonNumber::PosInt(1))),
        ("b", JsonValue::Str("x\"y".to_string())),
        ("c", JsonValue::Array(vec![JsonValue::Null, JsonValue::Bool(true), JsonValue::Number(JsonNumber::Float("1.5".to_string()))])),
        ("d", obj(vec![])),
    ]);
    assert_eq!(to_json_string(&v), "{\"a\":1,\"b\":\"x\\\"y\",\"c\":[null,true,1.5],\"d\":{}}");
    assert_eq!(to_json_string(&JsonValue::Array(vec![])), "[]");
    assert_eq!(
        to_json_string(&JsonValue::Str("a\u{1}\u{8}\t\\é\u{7f}".to_string())),
        "\"a\\u0001\\b\\t\\\\é\u{7f}\""
    );
    assert_eq!(to_json_string(&JsonValue::Number(JsonNumber::NegInt(i64::MIN))), "-9223372036854775808");
}

#[test]
fn execution_outcome_labels() {
    let ok = completed_result(Some(0), (String::new(), false), (String::new(), false));
    assert_eq!(execution_outcome(&Ok(ok)), "ok");
    let failed = completed_result(Some(1), (String::new(), false), (String::new(), false));
    assert_eq!(execution_outcome(&Ok(failed)), "nonzero_exit");
    assert_eq!(execution_outcome(&Ok(timed_out_result(10))), "timeout");
    assert_eq!(execution_outcome(&Ok(detached_result(Some(1)))), "detached");
    let err = TerminalMcpError::Shell(ShellError::CommandNotFound("x".to_string()));
    assert_eq!(execution_outcome(&Err(err)), "error");
}
