use terminal_mcp::audit::{
    command_log_content, format_tool_call_line, format_tool_result_line, new_session_prefix,
    summarize_arguments, tool_call_line, tool_result_line, CommandLogNames,
};
use terminal_mcp::execute::ExecuteResult;
use terminal_mcp::json::{JsonNumber, JsonValue};

fn s(x: &str) -> JsonValue {
    JsonValue::Str(x.to_string())
}

fn obj(members: Vec<(&str, JsonValue)>) -> JsonValue {
    JsonValue::Object(members.into_iter().map(|(k, v)| (k.to_string(), v)).collect())
}

fn result(exit_code: i32, stdout: &str, stderr: &str, timed_out: bool) -> ExecuteResult {
    ExecuteResult {
        exit_code,
        stdout: stdout.to_string(),
        stderr: stderr.to_string(),
        timed_out,
        stdout_truncated: false,
        stderr_truncated: false,
        detached_pid: None,
    }
}

#[test]
fn test_summarize_arguments() {
    let args = obj(vec![("command", s("ls")), ("args", JsonValue::Array(vec![s("-la")]))]);
    let summary = summarize_arguments(&args);
    assert!(summary.contains("command="));
    assert!(summary.contains("ls"));
    assert!(summary.contains("args="));
}

#[test]
fn summary_quotes_strings_and_lists_arrays() {
    // Object members are summarized in the order they are held.
    let args = obj(vec![("args", JsonValue::Array(vec![s("-la"), s("/tmp")])), ("command", s("ls"))]);
    assert_eq!(summarize_arguments(&args), "args=[\"-la\", \"/tmp\"] command=\"ls\"");
}

#[test]
fn summary_writes_other_values_as_json() {
    let args = obj(vec![
        ("timeout_secs", JsonValue::Number(JsonNumber::PosInt(5))),
        ("detach", JsonValue::Bool(true)),
        ("cwd", JsonValue::Null),
        ("n", JsonValue::Array(vec![JsonValue::Number(JsonNumber::NegInt(-3)), JsonValue::Bool(false)])),
    ]);
    assert_eq!(summarize_arguments(&args), "timeout_secs=5 detach=true cwd=null n=[-3, false]");
}

#[test]
fn summary_escapes_quotes_in_strings() {
    let args = obj(vec![("script", s("echo \"hi\"\nls"))]);
    assert_eq!(summarize_arguments(&args), "script=\"echo \\\"hi\\\"\\nls\"");
}

#[test]
fn summary_cuts_long_strings() {
    let long = "a".repeat(100);
    let args = obj(vec![("script", s(&long))]);
    let expected = format!("script=\"{}...\"", "a".repeat(77));
    assert_eq!(summarize_arguments(&args), expected);
}

#[test]
fn summary_keeps_strings_of_eighty_bytes() {
    let exact = "b".repeat(80);
    let args = obj(vec![("script", s(&exact))]);
    assert_eq!(summarize_arguments(&args), format!("script=\"{}\"", exact));
}

#[test]
fn summary_cut_keeps_whole_characters() {
    // 40 two-byte characters: 80 bytes would fit, but 41 of them do not;
    // the cut keeps 38 characters (76 bytes) within the 77-byte budget.
    let long = "é".repeat(41);
    let args = obj(vec![("k", s(&long))]);
    assert_eq!(summarize_arguments(&args), format!("k=\"{}...\"", "é".repeat(38)));
}

#[test]
fn summary_of_non_object_is_empty() {
    assert_eq!(summarize_arguments(&s("ls")), "");
    assert_eq!(summarize_arguments(&JsonValue::Null), "");
    assert_eq!(summarize_arguments(&obj(vec![])), "");
}

#[test]
fn tool_call_line_format() {
    let args = obj(vec![("command", s("ls"))]);
    assert_eq!(
        format_tool_call_line("2024-02-13T14:30:22Z", "terminal_execute", &args),
        "[2024-02-13T14:30:22Z] TOOL terminal_execute command=\"ls\"\n"
    );
}

#[test]
fn tool_result_line_format() {
    assert_eq!(
        format_tool_result_line("2024-02-13T14:30:22Z", "exit_code=0 timed_out=false -> x_001.log"),
        "[2024-02-13T14:30:22Z] RESULT exit_code=0 timed_out=false -> x_001.log\n"
    );
}

#[test]
fn stamped_lines_carry_tool_and_result() {
    let args = obj(vec![("command", s("ls"))]);
    let call = tool_call_line("terminal_execute", &args);
    assert!(call.starts_with('['));
    assert!(call.contains("Z] TOOL terminal_execute command=\"ls\""));
    assert!(call.ends_with('\n'));
    let res = tool_result_line("done");
    assert!(res.contains("Z] RESULT done"));
    assert_eq!(&res[21..], "] RESULT done\n");
}

#[test]
fn command_log_of_finished_command() {
    let r = result(0, "file1\nfile2\n", "", false);
    let content = command_log_content("ls", Some("/tmp"), &r);
    assert_eq!(content, "$ ls\n(cwd: /tmp)\n--- stdout ---\nfile1\nfile2\n--- stderr ---\n--- exit code: 0 ---\n");
    assert!(content.contains("$ ls"));
    assert!(content.contains("(cwd: /tmp)"));
    assert!(content.contains("file1"));
    assert!(content.contains("--- exit code: 0 ---"));
}

#[test]
fn command_log_adds_missing_newlines() {
    let r = result(2, "out", "err", false);
    assert_eq!(
        command_log_content("false", None, &r),
        "$ false\n--- stdout ---\nout\n--- stderr ---\nerr\n--- exit code: 2 ---\n"
    );
}

#[test]
fn command_log_of_negative_exit_code() {
    let r = result(-1, "", "", false);
    assert!(command_log_content("x", None, &r).ends_with("--- exit code: -1 ---\n"));
}

#[test]
fn command_log_of_timed_out_command() {
    let r = result(-1, "", "Command timed out after 1 seconds", true);
    assert_eq!(
        command_log_content("sleep 5", None, &r),
        "$ sleep 5\n--- stdout ---\n--- stderr ---\nCommand timed out after 1 seconds\n--- timed out ---\n"
    );
}

#[test]
fn command_log_names_count_up() {
    let mut names = CommandLogNames::new("abc12345_20260213T143022".to_string());
    assert_eq!(names.logged(), 0);
    assert_eq!(names.next_name(), "abc12345_20260213T143022_001.log");
    assert_eq!(names.next_name(), "abc12345_20260213T143022_002.log");
    assert_eq!(names.logged(), 2);
    assert_eq!(names.prefix_str(), "abc12345_20260213T143022");
}

#[test]
fn command_log_names_widen_past_three_digits() {
    let mut names = CommandLogNames::new("p".to_string());
    let mut last = String::new();
    for _ in 0..1000 {
        last = names.next_name();
    }
    assert_eq!(last, "p_1000.log");
}

#[test]
fn session_prefix_shape() {
    let p = new_session_prefix();
    assert_eq!(p.len(), 24);
    let bytes = p.as_bytes();
    for b in &bytes[..8] {
        assert!(b.is_ascii_digit() || (b'a'..=b'f').contains(b));
    }
    assert_eq!(bytes[8], b'_');
    assert_eq!(bytes[17], b'T');
}
