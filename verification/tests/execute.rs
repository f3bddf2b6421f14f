use terminal_mcp::error::{ShellError, TerminalMcpError};
use terminal_mcp::execute::{
    check_command_allowed, check_working_dir, completed_result, detached_result, idle_timeout_result, inherit_environment,
    missing_working_dir, prepare_execution, safe_env_keys, spawn_failure, timed_out_result,
    unresolvable_working_dir, wait_failure, ExecuteMode, ExecutionRequest, DEFAULT_MAX_LINES,
    DEFAULT_TIMEOUT_SECS,
};

fn command(cmd: &str, args: Option<Vec<&str>>, stdin: Option<&str>) -> ExecutionRequest {
    ExecutionRequest {
        mode: ExecuteMode::Command {
            command: cmd.to_string(),
            args: args.map(|a| a.into_iter().map(|x| x.to_string()).collect()),
            stdin_input: stdin.map(|x| x.to_string()),
        },
        cwd: None,
        timeout_secs: None,
        inactivity_timeout_secs: None,
        max_lines: None,
        detach: false,
    }
}

fn invalid_command(res: Result<impl std::fmt::Debug, TerminalMcpError>) -> String {
    match res {
        Err(TerminalMcpError::Shell(ShellError::InvalidCommand(m))) => m,
        other => panic!("expected an invalid command, got {:?}", other),
    }
}

#[test]
fn test_empty_command() {
    let res = prepare_execution(&command("", None, None), None);
    assert_eq!(invalid_command(res), "Command cannot be empty");
}

#[test]
fn command_invocation_fills_defaults() {
    let inv = prepare_execution(&command("echo", Some(vec!["hello"]), Some("in")), None).unwrap();
    assert_eq!(inv.program, "echo");
    assert_eq!(inv.args, vec!["hello"]);
    assert!(inv.env_vars.is_empty());
    assert_eq!(inv.stdin_input.as_deref(), Some("in"));
    assert_eq!(inv.timeout_secs, DEFAULT_TIMEOUT_SECS);
    assert_eq!(inv.timeout_secs, 30);
    assert_eq!(inv.max_lines, DEFAULT_MAX_LINES);
    assert_eq!(inv.max_lines, 200);
    assert!(inv.cwd.is_none());
    assert!(inv.inactivity_timeout_secs.is_none());
    assert!(!inv.detach);
}

#[test]
fn script_invocation_pipes_into_sh() {
    let req = ExecutionRequest {
        mode: ExecuteMode::Script {
            script: "echo \"arg1=$1 arg2=$2\"".to_string(),
            script_args: Some(vec!["foo".to_string(), "bar".to_string()]),
            env_vars: Some(vec![("MY_VAR".to_string(), "hello_env".to_string())]),
        },
        cwd: Some("/tmp".to_string()),
        timeout_secs: Some(10),
        inactivity_timeout_secs: Some(3),
        max_lines: Some(0),
        detach: true,
    };
    let inv = prepare_execution(&req, Some("sh")).unwrap();
    assert_eq!(inv.program, "sh");
    assert_eq!(inv.args, vec!["-s", "--", "foo", "bar"]);
    assert_eq!(inv.env_vars, vec![("MY_VAR".to_string(), "hello_env".to_string())]);
    assert_eq!(inv.stdin_input.as_deref(), Some("echo \"arg1=$1 arg2=$2\""));
    assert_eq!(inv.cwd.as_deref(), Some("/tmp"));
    assert_eq!(inv.timeout_secs, 10);
    assert_eq!(inv.inactivity_timeout_secs, Some(3));
    assert_eq!(inv.max_lines, 0);
    assert!(inv.detach);
}

#[test]
fn allowlist_checks() {
    assert!(check_command_allowed("rm", None).is_ok());
    assert!(check_command_allowed("rm", Some("   ")).is_ok());
    assert!(check_command_allowed("ls", Some("ls, echo")).is_ok());
    assert!(check_command_allowed("echo", Some(" ls , echo ")).is_ok());
    assert!(check_command_allowed("/bin/ls", Some("ls")).is_ok());
    assert!(check_command_allowed("/usr/bin/git", Some("/usr/bin/git")).is_ok());
    assert!(check_command_allowed("/bin/ls/", Some("ls")).is_ok());
    assert!(check_command_allowed("/bin/ls/.", Some("ls")).is_ok());
    assert!(check_command_allowed("/bin/..", Some("..")).is_err());
    assert_eq!(
        invalid_command(check_command_allowed("rm", Some("ls,echo"))),
        "Command 'rm' is not in MCP_TERMINAL_ALLOWED_COMMANDS"
    );
    // Empty entries never match.
    assert!(check_command_allowed("rm", Some("ls,,")).is_err());
    assert_eq!(
        invalid_command(prepare_execution(&command("rm", None, None), Some("ls"))),
        "Command 'rm' is not in MCP_TERMINAL_ALLOWED_COMMANDS"
    );
}

#[test]
fn environment_inheritance_flag() {
    assert!(inherit_environment(Some("1")));
    assert!(!inherit_environment(Some("true")));
    assert!(!inherit_environment(Some("")));
    assert!(!inherit_environment(None));
    assert_eq!(safe_env_keys(), vec!["PATH", "HOME", "USER", "TMPDIR", "TERM", "LANG"]);
}

#[test]
fn test_cwd_rejects_proc() {
    match check_working_dir("/proc", "/proc") {
        Err(TerminalMcpError::Shell(ShellError::ExecutionFailed(m))) => {
            assert!(m.contains("/proc"), "expected /proc rejection, got: {m}");
            assert_eq!(m, "Refusing to use working directory under /proc: /proc");
        },
        other => panic!("expected a refusal, got {:?}", other),
    }
}

#[test]
fn working_dir_roots() {
    assert!(check_working_dir("/tmp", "/tmp").is_ok());
    assert!(check_working_dir("/proc_x", "/proc_x").is_ok());
    assert!(check_working_dir("/", "/").is_ok());
    assert!(check_working_dir("/sys/kernel", "/sys/kernel").is_err());
    match check_working_dir("~/dev-link", "/dev/shm") {
        Err(TerminalMcpError::Shell(ShellError::ExecutionFailed(m))) => {
            assert_eq!(m, "Refusing to use working directory under /dev: ~/dev-link")
        },
        other => panic!("expected a refusal, got {:?}", other),
    }
}

#[test]
fn failure_messages() {
    assert_eq!(
        missing_working_dir("/nonexistent_dir_xyz").message(),
        "Shell error: Execution failed: Working directory does not exist: /nonexistent_dir_xyz"
    );
    assert!(missing_working_dir("/nonexistent_dir_xyz").message().contains("does not exist"));
    assert_eq!(
        unresolvable_working_dir("/x", "denied").message(),
        "Shell error: Execution failed: Failed to resolve working directory '/x': denied"
    );
    let nf = spawn_failure("nonexistent_command_xyz_12345", true, "No such file");
    assert!(matches!(&nf, TerminalMcpError::Shell(ShellError::CommandNotFound(c)) if c == "nonexistent_command_xyz_12345"));
    assert!(nf.message().contains("not found"));
    assert_eq!(
        spawn_failure("x", false, "denied").message(),
        "Shell error: Execution failed: Failed to spawn command 'x': denied"
    );
    assert_eq!(
        wait_failure("x", "gone").message(),
        "Shell error: Execution failed: Failed to wait for command 'x': gone"
    );
}

#[test]
fn result_constructors() {
    let r = completed_result(Some(3), ("out".to_string(), true), ("err".to_string(), false));
    assert_eq!((r.exit_code, r.stdout.as_str(), r.stderr.as_str()), (3, "out", "err"));
    assert!(r.stdout_truncated && !r.stderr_truncated && !r.timed_out && r.detached_pid.is_none());
    assert_eq!(completed_result(None, (String::new(), false), (String::new(), false)).exit_code, -1);

    let t = timed_out_result(1);
    assert!(t.timed_out);
    assert_eq!(t.exit_code, -1);
    assert_eq!(t.stdout, "");
    assert_eq!(t.stderr, "Command timed out after 1 seconds");

    let d = detached_result(Some(77));
    assert_eq!((d.exit_code, d.detached_pid), (0, Some(77)));
    assert!(d.stdout.is_empty() && d.stderr.is_empty() && !d.timed_out);
}

#[test]
fn zero_inactivity_limit_is_no_limit() {
    let mut req = command("sleep", Some(vec!["10"]), None);
    req.inactivity_timeout_secs = Some(0);
    assert!(prepare_execution(&req, None).unwrap().inactivity_timeout_secs.is_none());
    req.inactivity_timeout_secs = Some(1);
    assert_eq!(prepare_execution(&req, None).unwrap().inactivity_timeout_secs, Some(1));
    let r = idle_timeout_result(1);
    assert!(r.timed_out);
    assert_eq!(r.exit_code, -1);
    assert_eq!(r.stderr, "Command produced no output for 1 seconds");
}
