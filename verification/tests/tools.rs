use terminal_mcp::error::{McpError, ScriptError, TerminalMcpError};
use terminal_mcp::execute::{ExecuteMode, ExecuteResult};
use terminal_mcp::json::{get_field, get_str, get_u64, JsonNumber, JsonValue};
use terminal_mcp::tools::{
    builtin_tool, dynamic_script_tool, execution_result_reply, terminal_list_scripts_tool, terminal_remove_script_tool,
    ScriptParameter, TERMINAL_REMOVE_SCRIPT_DESCRIPTION, parse_script_parameters, script_preview, validate_param_name,
    validate_script_name, PendingExecution, ScriptStore, StoredScript, ToolOutcome, ToolRegistry, ToolReply,
    ToolStep,
};

fn s(x: &str) -> JsonValue {
    JsonValue::Str(x.to_string())
}

fn obj(members: Vec<(&str, JsonValue)>) -> JsonValue {
    JsonValue::Object(members.into_iter().map(|(k, v)| (k.to_string(), v)).collect())
}

fn strs(items: &[&str]) -> JsonValue {
    JsonValue::Array(items.iter().map(|x| s(x)).collect())
}

fn param(name: &str, description: &str, required: bool) -> JsonValue {
    obj(vec![("name", s(name)), ("description", s(description)), ("required", JsonValue::Bool(required))])
}

fn store_args(name: &str, description: &str, script: &str) -> JsonValue {
    obj(vec![("name", s(name)), ("description", s(description)), ("script", s(script))])
}

fn reply(step: Result<ToolStep, TerminalMcpError>) -> ToolOutcome {
    match step {
        Ok(ToolStep::Reply(o)) => o,
        other => panic!("expected a finished reply, got {:?}", other),
    }
}

fn run(step: Result<ToolStep, TerminalMcpError>) -> PendingExecution {
    match step {
        Ok(ToolStep::Run(p)) => p,
        other => panic!("expected an execution, got {:?}", other),
    }
}

fn reply_text(o: &ToolOutcome) -> String {
    match &o.reply {
        ToolReply::Text(t) => t.clone(),
        other => panic!("expected text, got {:?}", other),
    }
}

fn error_message(step: Result<ToolStep, TerminalMcpError>) -> String {
    match step {
        Err(e) => e.message(),
        Ok(other) => panic!("expected an error, got {:?}", other),
    }
}

#[test]
fn test_execute_tool_missing_command() {
    let mut registry = ToolRegistry::new();
    let res = registry.execute_tool("terminal_execute", &obj(vec![]));
    assert!(res.is_err());
    let msg = error_message(res);
    assert!(msg.contains("command"));
    assert_eq!(msg, "MCP protocol error: Invalid tool parameters: Missing required parameter: command");
}

#[test]
fn test_tool_not_found() {
    let mut registry = ToolRegistry::new();
    let res = registry.execute_tool("nonexistent_tool", &obj(vec![("command", s("echo"))]));
    assert!(res.is_err());
    let msg = error_message(res);
    assert!(msg.contains("not found"));
    assert_eq!(msg, "MCP protocol error: Tool not found: nonexistent_tool");
}

#[test]
fn test_script_and_stdin_mutually_exclusive() {
    let mut registry = ToolRegistry::new();
    let res = registry.execute_tool("terminal_execute", &obj(vec![("script", s("echo hi")), ("stdin", s("data"))]));
    assert!(res.is_err());
    let msg = error_message(res);
    assert!(msg.contains("script") && msg.contains("stdin"));
}

#[test]
fn arguments_must_be_an_object() {
    let mut registry = ToolRegistry::new();
    let msg = error_message(registry.execute_tool("terminal_execute", &s("ls")));
    assert_eq!(msg, "MCP protocol error: Invalid tool parameters: Arguments must be an object");
}

#[test]
fn terminal_execute_plans_a_command() {
    let mut registry = ToolRegistry::new();
    let args = obj(vec![
        ("command", s("echo")),
        ("args", strs(&["one", "two", "three"])),
        ("cwd", s("/tmp")),
        ("timeout_secs", JsonValue::Number(JsonNumber::PosInt(5))),
        ("max_lines", JsonValue::Number(JsonNumber::PosInt(3))),
        ("stdin", s("input")),
    ]);
    let p = run(registry.execute_tool("terminal_execute", &args));
    assert_eq!(p.command_desc, "echo one two three");
    match &p.request.mode {
        ExecuteMode::Command { command, args, stdin_input } => {
            assert_eq!(command, "echo");
            assert_eq!(args.clone().unwrap(), vec!["one", "two", "three"]);
            assert_eq!(stdin_input.as_deref(), Some("input"));
        },
        other => panic!("expected a command, got {:?}", other),
    }
    assert_eq!(p.request.cwd.as_deref(), Some("/tmp"));
    assert_eq!(p.request.timeout_secs, Some(5));
    assert_eq!(p.request.max_lines, Some(3));
    assert!(!p.request.detach);
}

#[test]
fn script_param_plans_a_script_run() {
    let mut registry = ToolRegistry::new();
    let p = run(registry.execute_tool("terminal_execute", &obj(vec![("script", s("echo hello_script"))])));
    assert_eq!(p.command_desc, "script");
    match &p.request.mode {
        ExecuteMode::Script { script, script_args, env_vars } => {
            assert_eq!(script, "echo hello_script");
            assert!(script_args.is_none());
            assert!(env_vars.is_none());
        },
        other => panic!("expected a script, got {:?}", other),
    }
    let args = obj(vec![("script", s("echo \"$1 $2\"")), ("args", strs(&["hello", "world"])), ("detach", JsonValue::Bool(true))]);
    let p = run(registry.execute_tool("terminal_execute", &args));
    assert_eq!(p.command_desc, "script args=[hello world]");
    assert!(p.request.detach);
}

#[test]
fn test_store_and_list_scripts() {
    let mut registry = ToolRegistry::new();
    let outcome = reply(registry.execute_tool("terminal_store_script", &store_args("my_script", "A test script", "echo stored")));
    assert!(outcome.tools_changed);
    assert_eq!(reply_text(&outcome), "Script 'my_script' stored. Available as tool 'script_my_script'.");

    let list = reply(registry.execute_tool("terminal_list_scripts", &obj(vec![])));
    assert!(!list.tools_changed);
    match &list.reply {
        ToolReply::Json(JsonValue::Array(items)) => {
            assert_eq!(items.len(), 1);
            assert_eq!(get_str(&items[0], "name"), Some("my_script"));
            assert_eq!(get_str(&items[0], "description"), Some("A test script"));
            assert_eq!(get_str(&items[0], "script_preview"), Some("echo stored"));
            assert_eq!(get_u64(&items[0], "parameter_count"), Some(0));
        },
        other => panic!("expected a JSON array, got {:?}", other),
    }
}

#[test]
fn list_keeps_storing_order() {
    let mut registry = ToolRegistry::new();
    reply(registry.execute_tool("terminal_store_script", &store_args("script_a", "Script A", "echo a")));
    let mut b = store_args("script_b", "Script B", "echo b");
    if let JsonValue::Object(m) = &mut b {
        m.push(("parameters".to_string(), JsonValue::Array(vec![param("X", "x", false)])));
    }
    reply(registry.execute_tool("terminal_store_script", &b));
    let list = reply(registry.execute_tool("terminal_list_scripts", &obj(vec![])));
    match &list.reply {
        ToolReply::Json(JsonValue::Array(items)) => {
            assert_eq!(items.len(), 2);
            assert_eq!(get_str(&items[0], "name"), Some("script_a"));
            assert_eq!(get_str(&items[1], "name"), Some("script_b"));
            assert_eq!(get_u64(&items[1], "parameter_count"), Some(1));
        },
        other => panic!("expected a JSON array, got {:?}", other),
    }
}

#[test]
fn stored_script_runs_as_dynamic_tool() {
    let mut registry = ToolRegistry::new();
    reply(registry.execute_tool("terminal_store_script", &store_args("greet", "Greet", "echo hello_dynamic")));
    let p = run(registry.execute_tool("script_greet", &obj(vec![])));
    assert_eq!(p.command_desc, "script_greet");
    match &p.request.mode {
        ExecuteMode::Script { script, script_args, env_vars } => {
            assert_eq!(script, "echo hello_dynamic");
            assert!(script_args.is_none());
            assert!(env_vars.is_none());
        },
        other => panic!("expected a script, got {:?}", other),
    }
}

#[test]
fn test_remove_script() {
    let mut registry = ToolRegistry::new();
    reply(registry.execute_tool("terminal_store_script", &store_args("to_remove", "temp", "echo temp")));
    let outcome = reply(registry.execute_tool("terminal_remove_script", &obj(vec![("name", s("to_remove"))])));
    assert!(outcome.tools_changed);
    assert_eq!(reply_text(&outcome), "Script 'to_remove' removed.");
    let res = registry.execute_tool("script_to_remove", &obj(vec![]));
    assert!(res.is_err());
    assert_eq!(error_message(res), "Script error: Script not found: to_remove");
}

#[test]
fn remove_nonexistent_script_errors() {
    let mut registry = ToolRegistry::new();
    let res = registry.execute_tool("terminal_remove_script", &obj(vec![("name", s("does_not_exist"))]));
    match res {
        Err(TerminalMcpError::Script(ScriptError::NotFound(n))) => assert_eq!(n, "does_not_exist"),
        other => panic!("expected not found, got {:?}", other),
    }
}

#[test]
fn test_dangerous_param_name_rejected() {
    let mut registry = ToolRegistry::new();
    for bad in ["LD_PRELOAD", "BASH_ENV", "1BAD", "has-dash", "IFS"] {
        let mut args = store_args("with_bad_param", "desc", "echo hi");
        if let JsonValue::Object(m) = &mut args {
            m.push(("parameters".to_string(), JsonValue::Array(vec![obj(vec![("name", s(bad))])])));
        }
        let res = registry.execute_tool("terminal_store_script", &args);
        assert!(res.is_err(), "param name '{bad}' should be rejected");
    }
    assert!(registry.stored_scripts().is_empty());
}

#[test]
fn test_invalid_script_name() {
    let mut registry = ToolRegistry::new();
    let res = registry.execute_tool("terminal_store_script", &store_args("bad-name", "desc", "echo hi"));
    assert!(res.is_err());
    let msg = error_message(res);
    assert!(msg.to_lowercase().contains("invalid"));
}

#[test]
fn test_dynamic_tool_appears_in_list() {
    let mut registry = ToolRegistry::new();
    reply(registry.execute_tool("terminal_store_script", &store_args("listed", "A listed script", "echo listed")));
    let tools = registry.list_tools();
    let names: Vec<&str> = tools.iter().map(|t| t.name.as_str()).collect();
    assert!(names.contains(&"script_listed"));
}

#[test]
fn builtin_tools_listed_first() {
    let registry = ToolRegistry::new();
    let names: Vec<String> = registry.list_tools().into_iter().map(|t| t.name).collect();
    assert_eq!(names, vec!["terminal_execute", "terminal_store_script", "terminal_remove_script", "terminal_list_scripts"]);
}

#[test]
fn removed_script_leaves_tool_list() {
    let mut registry = ToolRegistry::new();
    reply(registry.execute_tool("terminal_store_script", &store_args("to_remove", "Will be removed", "echo temp")));
    assert_eq!(registry.list_tools().len(), 5);
    reply(registry.execute_tool("terminal_remove_script", &obj(vec![("name", s("to_remove"))])));
    let names: Vec<String> = registry.list_tools().into_iter().map(|t| t.name).collect();
    assert!(!names.contains(&"script_to_remove".to_string()));
    assert_eq!(names.len(), 4);
}

#[test]
fn parameters_become_environment() {
    let mut registry = ToolRegistry::new();
    let mut args = store_args("parameterized", "Script with params", "echo $GREETING $TARGET");
    if let JsonValue::Object(m) = &mut args {
        m.push((
            "parameters".to_string(),
            JsonValue::Array(vec![param("GREETING", "The greeting", true), param("TARGET", "Who to greet", false)]),
        ));
    }
    reply(registry.execute_tool("terminal_store_script", &args));
    let call = obj(vec![("GREETING", s("hello")), ("TARGET", s("world"))]);
    let p = run(registry.execute_tool("script_parameterized", &call));
    match &p.request.mode {
        ExecuteMode::Script { env_vars, .. } => {
            assert_eq!(
                env_vars.clone().unwrap(),
                vec![("GREETING".to_string(), "hello".to_string()), ("TARGET".to_string(), "world".to_string())]
            );
        },
        other => panic!("expected a script, got {:?}", other),
    }
    // An optional parameter may be left out.
    let p = run(registry.execute_tool("script_parameterized", &obj(vec![("GREETING", s("hi"))])));
    match &p.request.mode {
        ExecuteMode::Script { env_vars, .. } => {
            assert_eq!(env_vars.clone().unwrap(), vec![("GREETING".to_string(), "hi".to_string())]);
        },
        other => panic!("expected a script, got {:?}", other),
    }
}

#[test]
fn stored_script_missing_required_param() {
    let mut registry = ToolRegistry::new();
    let mut args = store_args("req_test", "test required params", "echo $MUST_HAVE");
    if let JsonValue::Object(m) = &mut args {
        m.push(("parameters".to_string(), JsonValue::Array(vec![obj(vec![("name", s("MUST_HAVE")), ("required", JsonValue::Bool(true))])])));
    }
    reply(registry.execute_tool("terminal_store_script", &args));
    let res = registry.execute_tool("script_req_test", &obj(vec![]));
    match res {
        Err(TerminalMcpError::Mcp(McpError::InvalidToolParameters(m))) => {
            assert_eq!(m, "Missing required parameter: MUST_HAVE")
        },
        other => panic!("expected invalid parameters, got {:?}", other),
    }
}

#[test]
fn overwrite_reports_update_and_runs_new_body() {
    let mut registry = ToolRegistry::new();
    reply(registry.execute_tool("terminal_store_script", &store_args("overwrite_me", "v1", "echo v1")));
    let second = reply(registry.execute_tool("terminal_store_script", &store_args("overwrite_me", "v2", "echo v2")));
    let text = reply_text(&second);
    assert!(text.contains("updated"));
    assert_eq!(text, "Script 'overwrite_me' updated. Available as tool 'script_overwrite_me'.");
    assert_eq!(registry.stored_scripts().len(), 1);
    let p = run(registry.execute_tool("script_overwrite_me", &obj(vec![])));
    match &p.request.mode {
        ExecuteMode::Script { script, .. } => assert_eq!(script, "echo v2"),
        other => panic!("expected a script, got {:?}", other),
    }
}

#[test]
fn store_requires_each_field() {
    let mut registry = ToolRegistry::new();
    let msg = error_message(registry.execute_tool("terminal_store_script", &obj(vec![("name", s("x"))])));
    assert_eq!(msg, "MCP protocol error: Invalid tool parameters: Missing required parameter: description");
    let msg = error_message(registry.execute_tool("terminal_store_script", &obj(vec![("name", s("x")), ("description", s("d"))])));
    assert_eq!(msg, "MCP protocol error: Invalid tool parameters: Missing required parameter: script");
    let msg = error_message(registry.execute_tool("terminal_store_script", &obj(vec![])));
    assert_eq!(msg, "MCP protocol error: Invalid tool parameters: Missing required parameter: name");
}

#[test]
fn script_name_validation() {
    assert!(validate_script_name("my_script_1").is_ok());
    match validate_script_name("") {
        Err(TerminalMcpError::Script(ScriptError::InvalidName(m))) => assert_eq!(m, "Name cannot be empty"),
        other => panic!("unexpected {:?}", other),
    }
    match validate_script_name("bad-name!") {
        Err(TerminalMcpError::Script(ScriptError::InvalidName(m))) => {
            assert_eq!(m, "Name must be alphanumeric/underscore only, got: 'bad-name!'")
        },
        other => panic!("unexpected {:?}", other),
    }
    match validate_script_name("terminal_execute") {
        Err(TerminalMcpError::Script(ScriptError::InvalidName(m))) => {
            assert_eq!(m, "Name 'terminal_execute' conflicts with a built-in tool")
        },
        other => panic!("unexpected {:?}", other),
    }
    assert!(builtin_tool("terminal_list_scripts"));
    assert!(!builtin_tool("script_x"));
}

#[test]
fn param_name_validation() {
    assert!(validate_param_name("GREETING").is_ok());
    assert!(validate_param_name("_x9").is_ok());
    match validate_param_name("1BAD") {
        Err(TerminalMcpError::Mcp(McpError::InvalidToolParameters(m))) => {
            assert_eq!(m, "Invalid parameter name '1BAD': must match [A-Za-z_][A-Za-z0-9_]*")
        },
        other => panic!("unexpected {:?}", other),
    }
    match validate_param_name("LD_LIBRARY_PATH") {
        Err(TerminalMcpError::Mcp(McpError::InvalidToolParameters(m))) => assert_eq!(
            m,
            "Parameter name 'LD_LIBRARY_PATH' is not allowed (injection-enabling environment variable)"
        ),
        other => panic!("unexpected {:?}", other),
    }
    for bad in ["", "has-dash", "CDPATH", "IFS", "BASH_ENV", "LD_PRELOAD"] {
        assert!(validate_param_name(bad).is_err(), "{bad}");
    }
}

#[test]
fn parameter_parsing() {
    assert!(parse_script_parameters(None).unwrap().is_empty());
    assert!(parse_script_parameters(Some(&s("x"))).unwrap().is_empty());
    let arr = JsonValue::Array(vec![param("A", "first", true), obj(vec![("name", s("B"))])]);
    let ps = parse_script_parameters(Some(&arr)).unwrap();
    assert_eq!(ps.len(), 2);
    assert_eq!((ps[0].name.as_str(), ps[0].description.as_str(), ps[0].required), ("A", "first", true));
    assert_eq!((ps[1].name.as_str(), ps[1].description.as_str(), ps[1].required), ("B", "", false));
    let missing = JsonValue::Array(vec![obj(vec![("description", s("no name"))])]);
    match parse_script_parameters(Some(&missing)) {
        Err(TerminalMcpError::Mcp(McpError::InvalidToolParameters(m))) => {
            assert_eq!(m, "Each parameter must have a 'name' string")
        },
        other => panic!("unexpected {:?}", other),
    }
}

#[test]
fn preview_collapses_whitespace_and_truncates() {
    assert_eq!(script_preview("echo   hello\n\tworld  "), "echo hello world");
    assert_eq!(script_preview(""), "");
    assert_eq!(script_preview("a\u{3000}b\u{a0}c"), "a b c");
    let long = "x".repeat(100);
    assert_eq!(script_preview(&long), format!("{}…", "x".repeat(80)));
    assert_eq!(script_preview(&"y".repeat(80)), "y".repeat(80));
}

#[test]
fn execution_reply_payload() {
    let r = ExecuteResult {
        exit_code: 0,
        stdout: "hello\n".to_string(),
        stderr: String::new(),
        timed_out: false,
        stdout_truncated: false,
        stderr_truncated: false,
        detached_pid: None,
    };
    let o = execution_result_reply(&r, Some("x_001.log"));
    assert!(!o.tools_changed);
    match &o.reply {
        ToolReply::Json(v) => {
            assert_eq!(get_u64(v, "exit_code"), Some(0));
            assert_eq!(get_str(v, "stdout"), Some("hello\n"));
            assert_eq!(get_str(v, "audit_log_file"), Some("x_001.log"));
            assert!(get_field(v, "detached_pid").is_none());
            assert_eq!(
                terminal_mcp::json::to_json_string(v),
                "{\"exit_code\":0,\"stdout\":\"hello\\n\",\"stderr\":\"\",\"timed_out\":false,\"stdout_truncated\":false,\"stderr_truncated\":false,\"audit_log_file\":\"x_001.log\"}"
            );
        },
        other => panic!("expected JSON, got {:?}", other),
    }
    let detached = ExecuteResult { detached_pid: Some(4242), exit_code: -1, ..r };
    match &execution_result_reply(&detached, None).reply {
        ToolReply::Json(v) => {
            assert_eq!(get_u64(v, "detached_pid"), Some(4242));
            assert!(matches!(get_field(v, "exit_code"), Some(JsonValue::Number(JsonNumber::NegInt(-1)))));
            assert!(get_field(v, "audit_log_file").is_none());
        },
        other => panic!("expected JSON, got {:?}", other),
    }
}

#[test]
fn script_store_insert_get_remove() {
    let mut store = ScriptStore::new();
    let script = StoredScript {
        name: "a".to_string(),
        description: "d".to_string(),
        script: "echo a".to_string(),
        parameters: vec![],
    };
    assert!(!store.insert(script.clone()));
    assert!(store.insert(StoredScript { script: "echo b".to_string(), ..script }));
    assert_eq!(store.get("a").unwrap().script, "echo b");
    assert_eq!(store.scripts().len(), 1);
    assert!(store.remove("a"));
    assert!(!store.remove("a"));
    assert!(store.get("a").is_none());
}

#[test]
fn builtin_tool_schemas() {
    let remove = terminal_remove_script_tool();
    assert_eq!(remove.description, TERMINAL_REMOVE_SCRIPT_DESCRIPTION);
    assert_eq!(remove.description, "Remove a stored script, removing its dynamic tool.");
    assert_eq!(
        terminal_mcp::json::to_json_string(&remove.input_schema),
        "{\"type\":\"object\",\"properties\":{\"name\":{\"type\":\"string\",\"description\":\"Name of the script to remove.\"}},\"required\":[\"name\"]}"
    );
    assert_eq!(
        terminal_mcp::json::to_json_string(&terminal_list_scripts_tool().input_schema),
        "{\"type\":\"object\",\"properties\":{}}"
    );
}

#[test]
fn dynamic_tool_schema_lists_parameters() {
    let stored = StoredScript {
        name: "greet".to_string(),
        description: "Greet".to_string(),
        script: "echo $WHO".to_string(),
        parameters: vec![
            ScriptParameter { name: "WHO".to_string(), description: "who".to_string(), required: true },
            ScriptParameter { name: "HOW".to_string(), description: "how".to_string(), required: false },
        ],
    };
    let t = dynamic_script_tool(&stored);
    assert_eq!(t.name, "script_greet");
    assert_eq!(t.description, "Greet");
    assert_eq!(
        terminal_mcp::json::to_json_string(&t.input_schema),
        [
            "{\"type\":\"object\",\"properties\":{",
            "\"WHO\":{\"type\":\"string\",\"description\":\"who\"},",
            "\"HOW\":{\"type\":\"string\",\"description\":\"how\"},",
            "\"cwd\":{\"type\":\"string\",\"description\":\"Working directory for the script.\"},",
            "\"timeout_secs\":{\"type\":\"number\",\"description\":\"Timeout in seconds. Default: 30.\"},",
            "\"max_lines\":{\"type\":\"number\",\"description\":\"Maximum output lines. Default: 200. 0 for unlimited.\"}",
            "},\"required\":[\"WHO\"]}"
        ]
        .concat()
    );
}

#[test]
fn script_and_command_are_mutually_exclusive() {
    let mut registry = ToolRegistry::new();
    let res = registry.execute_tool("terminal_execute", &obj(vec![("script", s("echo a")), ("command", s("echo"))]));
    match res {
        Err(TerminalMcpError::Mcp(McpError::InvalidToolParameters(m))) => {
            assert_eq!(m, "Cannot provide both 'command' and 'script' parameters")
        },
        other => panic!("expected invalid parameters, got {:?}", other),
    }
}

#[test]
fn inactivity_limit_is_passed_on() {
    let mut registry = ToolRegistry::new();
    let args = obj(vec![
        ("command", s("sleep")),
        ("args", strs(&["10"])),
        ("timeout_secs", JsonValue::Number(JsonNumber::PosInt(30))),
        ("inactivity_timeout_secs", JsonValue::Number(JsonNumber::PosInt(1))),
    ]);
    let p = run(registry.execute_tool("terminal_execute", &args));
    assert_eq!(p.request.inactivity_timeout_secs, Some(1));
    assert_eq!(p.request.timeout_secs, Some(30));
}
