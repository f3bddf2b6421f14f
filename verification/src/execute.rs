//! Decisions around running a command: what may run, how it is started,
//! where it runs, and how its outcome is reported.

use vstd::prelude::*;
use vstd::string::StringExecFns;
use crate::error::{ShellError, TerminalMcpError, concat2, concat3};
use crate::text::{trimmed, split_on, trim, split_char, str_eq, push_decimal, decimal, str_byte_len};

verus! {

/// Default number of lines kept per output stream.
pub const DEFAULT_MAX_LINES: usize = 200;

/// Default wall-clock timeout, in seconds.
pub const DEFAULT_TIMEOUT_SECS: u64 = 30;

/// The outcome of one execution.
#[derive(Debug, Clone)]
pub struct ExecuteResult {
    pub exit_code: i32,
    pub stdout: String,
    pub stderr: String,
    pub timed_out: bool,
    pub stdout_truncated: bool,
    pub stderr_truncated: bool,
    /// PID of a detached (fire-and-forget) process; `None` for bounded runs.
    pub detached_pid: Option<u32>,
}

/// What a tool call asks to run.
#[derive(Debug, Clone)]
pub enum ExecuteMode {
    /// A program with its arguments and optional standard input.
    Command { command: String, args: Option<Vec<String>>, stdin_input: Option<String> },
    /// A shell script piped into `sh -s -- [args]`, with extra environment.
    Script {
        script: String,
        script_args: Option<Vec<String>>,
        env_vars: Option<Vec<(String, String)>>,
    },
}

/// An execution request: what to run and under which limits.
#[derive(Debug, Clone)]
pub struct ExecutionRequest {
    pub mode: ExecuteMode,
    pub cwd: Option<String>,
    pub timeout_secs: Option<u64>,
    /// Seconds without any output after which the run is stopped
    /// (`None` or 0: no such limit).
    pub inactivity_timeout_secs: Option<u64>,
    pub max_lines: Option<usize>,
    pub detach: bool,
}

/// The text of a list of strings.
pub open spec fn strings_view(v: Seq<String>) -> Seq<Seq<char>> {
    v.map_values(|x: String| x@)
}

/// The text of a list of name/value pairs.
pub open spec fn pairs_view(v: Seq<(String, String)>) -> Seq<(Seq<char>, Seq<char>)> {
    v.map_values(|e: (String, String)| (e.0@, e.1@))
}

/// The content of an [`ExecuteMode`].
pub enum ModeView {
    Command { command: Seq<char>, args: Option<Seq<Seq<char>>>, stdin_input: Option<Seq<char>> },
    Script {
        script: Seq<char>,
        script_args: Option<Seq<Seq<char>>>,
        env_vars: Option<Seq<(Seq<char>, Seq<char>)>>,
    },
}

/// The content of an [`ExecutionRequest`].
pub struct RequestView {
    pub mode: ModeView,
    pub cwd: Option<Seq<char>>,
    pub timeout_secs: Option<u64>,
    pub inactivity_timeout_secs: Option<u64>,
    pub max_lines: Option<usize>,
    pub detach: bool,
}

impl View for ExecuteMode {
    type V = ModeView;

    open spec fn view(&self) -> ModeView {
        match self {
            ExecuteMode::Command { command, args, stdin_input } => ModeView::Command {
                command: command@,
                args: match args {
                    Some(a) => Some(strings_view(a@)),
                    None => None,
                },
                stdin_input: match stdin_input {
                    Some(s) => Some(s@),
                    None => None,
                },
            },
            ExecuteMode::Script { script, script_args, env_vars } => ModeView::Script {
                script: script@,
                script_args: match script_args {
                    Some(a) => Some(strings_view(a@)),
                    None => None,
                },
                env_vars: match env_vars {
                    Some(v) => Some(pairs_view(v@)),
                    None => None,
                },
            },
        }
    }
}

impl View for ExecutionRequest {
    type V = RequestView;

    open spec fn view(&self) -> RequestView {
        RequestView {
            mode: self.mode@,
            cwd: match self.cwd {
                Some(c) => Some(c@),
                None => None,
            },
            timeout_secs: self.timeout_secs,
            inactivity_timeout_secs: self.inactivity_timeout_secs,
            max_lines: self.max_lines,
            detach: self.detach,
        }
    }
}

/// How to start the process for a request.
#[derive(Debug, Clone)]
pub struct Invocation {
    pub program: String,
    pub args: Vec<String>,
    pub env_vars: Vec<(String, String)>,
    pub stdin_input: Option<String>,
    pub cwd: Option<String>,
    pub timeout_secs: u64,
    /// Seconds without output after which the run is stopped, if limited.
    pub inactivity_timeout_secs: Option<u64>,
    pub max_lines: usize,
    pub detach: bool,
}

/// The program a mode runs: the command itself, or `sh` for scripts.
pub open spec fn program_of(mode: ExecuteMode) -> Seq<char> {
    match mode {
        ExecuteMode::Command { command, .. } => command@,
        ExecuteMode::Script { .. } => "sh"@,
    }
}

/// The named components of a Unix path: the pieces between slashes, without
/// empty pieces and without `.`.
pub open spec fn path_names(p: Seq<char>) -> Seq<Seq<char>> {
    split_on(p, '/').filter(|c: Seq<char>| c.len() > 0 && c != seq!['.'])
}

/// The final component of a Unix path (`Path::file_name`, as text): the last
/// named component, or nothing when there is none or it is `..`.
pub open spec fn path_file_name(p: Seq<char>) -> Option<Seq<char>> {
    let names = path_names(p);
    if names.len() == 0 || names.last() == seq!['.', '.'] {
        None
    } else {
        Some(names.last())
    }
}

/// `Path::new(p).file_name()` converted to text, as [`path_file_name`]
/// states it for Unix paths. A path made from a `str` is valid UTF-8, so the
/// conversion keeps every component.
#[verifier::external_body]
fn file_name_of(p: &str) -> (r: Option<String>)
    ensures
        match r {
            Some(s) => path_file_name(p@) == Some(s@),
            None => path_file_name(p@) is None,
        },
{
    match std::path::Path::new(p).file_name() {
        Some(os) => match os.to_str() {
            Some(s) => Some(s.to_string()),
            None => None,
        },
        None => None,
    }
}

/// The name matched against the allowlist besides the command itself: its
/// final path component, or the command when it has none.
pub open spec fn command_basename(command: Seq<char>) -> Seq<char> {
    match path_file_name(command) {
        Some(b) => b,
        None => command,
    }
}

/// The entries of an allowlist value: comma-separated, each trimmed.
pub open spec fn allowlist_entries(raw: Seq<char>) -> Seq<Seq<char>> {
    split_on(trimmed(raw), ',').map_values(|e: Seq<char>| trimmed(e))
}

/// The text of an optional string slice.
pub open spec fn opt_str_view(o: Option<&str>) -> Option<Seq<char>> {
    match o {
        Some(s) => Some(s@),
        None => None,
    }
}

/// A command may run when no allowlist is set, when the allowlist is blank,
/// or when a non-empty entry names the command or its basename.
pub open spec fn command_allowed(command: Seq<char>, allowlist: Option<Seq<char>>) -> bool {
    match allowlist {
        None => true,
        Some(raw) => {
            ||| trimmed(raw).len() == 0
            ||| exists|i: int|
                0 <= i < allowlist_entries(raw).len() && #[trigger] allowlist_entries(raw)[i].len() > 0
                    && (allowlist_entries(raw)[i] == command || allowlist_entries(raw)[i]
                    == command_basename(command))
        },
    }
}

/// Enforces the optional command allowlist (the value of
/// `MCP_TERMINAL_ALLOWED_COMMANDS`, when set).
pub fn check_command_allowed(command: &str, allowlist: Option<&str>) -> (res: Result<(), TerminalMcpError>)
    ensures
        match res {
            Ok(()) => command_allowed(command@, opt_str_view(allowlist)),
            Err(TerminalMcpError::Shell(ShellError::InvalidCommand(m))) => !command_allowed(
                command@,
                opt_str_view(allowlist),
            ) && m@ == "Command '"@ + command@ + "' is not in MCP_TERMINAL_ALLOWED_COMMANDS"@,
            _ => false,
        },
{
    let raw = match allowlist {
        None => {
            return Ok(());
        },
        Some(r) => r,
    };
    let t = trim(raw);
    if t.as_str().is_empty() {
        return Ok(());
    }
    let basename = match file_name_of(command) {
        Some(b) => b,
        None => String::from_str(command),
    };
    let pieces = split_char(t.as_str(), ',');
    let ghost entries = allowlist_entries(raw@);
    let mut i: usize = 0;
    while i < pieces.len()
        invariant
            i <= pieces@.len(),
            allowlist == Some(raw),
            pieces@.map_values(|p: String| p@) == split_on(trimmed(raw@), ','),
            entries == allowlist_entries(raw@),
            basename@ == command_basename(command@),
            forall|j: int|
                0 <= j < i ==> !(#[trigger] entries[j].len() > 0 && (entries[j] == command@
                    || entries[j] == basename@)),
        decreases pieces@.len() - i,
    {
        let e = trim(pieces[i].as_str());
        proof {
            assert(entries[i as int] == trimmed(pieces@[i as int]@));
        }
        if !e.as_str().is_empty() && (str_eq(e.as_str(), command) || str_eq(e.as_str(), basename.as_str())) {
            proof {
                assert(entries[i as int] == e@);
                assert(entries[i as int].len() > 0);
            }
            return Ok(());
        }
        i = i + 1;
    }
    Err(
        TerminalMcpError::Shell(
            ShellError::InvalidCommand(
                concat3("Command '", command, "' is not in MCP_TERMINAL_ALLOWED_COMMANDS"),
            ),
        ),
    )
}

/// The argument vector a mode starts its program with.
pub open spec fn args_of(mode: ExecuteMode) -> Seq<Seq<char>> {
    match mode {
        ExecuteMode::Command { args, .. } => match args {
            Some(a) => a@.map_values(|x: String| x@),
            None => Seq::empty(),
        },
        ExecuteMode::Script { script_args, .. } => seq!["-s"@, "--"@] + match script_args {
            Some(a) => a@.map_values(|x: String| x@),
            None => Seq::empty(),
        },
    }
}

/// The environment entries a mode adds on top of the base environment.
pub open spec fn env_of(mode: ExecuteMode) -> Seq<(Seq<char>, Seq<char>)> {
    match mode {
        ExecuteMode::Script { env_vars: Some(v), .. } => v@.map_values(
            |e: (String, String)| (e.0@, e.1@),
        ),
        _ => Seq::empty(),
    }
}

/// What a mode writes to the standard input of its process.
pub open spec fn stdin_of(mode: ExecuteMode) -> Option<Seq<char>> {
    match mode {
        ExecuteMode::Command { stdin_input, .. } => match stdin_input {
            Some(s) => Some(s@),
            None => None,
        },
        ExecuteMode::Script { script, .. } => Some(script@),
    }
}

/// `inv` starts the process that `req` describes, with the defaults filled
/// in.
pub open spec fn invocation_for(req: ExecutionRequest, inv: Invocation) -> bool {
    &&& inv.program@ == program_of(req.mode)
    &&& inv.args@.map_values(|x: String| x@) == args_of(req.mode)
    &&& inv.env_vars@.map_values(|e: (String, String)| (e.0@, e.1@)) == env_of(req.mode)
    &&& match inv.stdin_input {
        Some(s) => stdin_of(req.mode) == Some(s@),
        None => stdin_of(req.mode) is None,
    }
    &&& inv.cwd == req.cwd
    &&& inv.timeout_secs == match req.timeout_secs {
        Some(t) => t,
        None => DEFAULT_TIMEOUT_SECS,
    }
    &&& inv.inactivity_timeout_secs == match req.inactivity_timeout_secs {
        Some(t) => if t > 0 {
            Some(t)
        } else {
            None
        },
        None => None,
    }
    &&& inv.max_lines == match req.max_lines {
        Some(m) => m,
        None => DEFAULT_MAX_LINES,
    }
    &&& inv.detach == req.detach
}

fn copy_strings(v: &Vec<String>) -> (out: Vec<String>)
    ensures
        out@.map_values(|x: String| x@) == v@.map_values(|x: String| x@),
{
    let mut out: Vec<String> = Vec::new();
    let mut i: usize = 0;
    while i < v.len()
        invariant
            i <= v@.len(),
            out@.len() == i,
            forall|j: int| 0 <= j < i ==> (#[trigger] out@[j])@ == v@[j]@,
        decreases v@.len() - i,
    {
        out.push(v[i].clone());
        i = i + 1;
    }
    assert(out@.map_values(|x: String| x@) =~= v@.map_values(|x: String| x@));
    out
}

fn copy_pairs(v: &Vec<(String, String)>) -> (out: Vec<(String, String)>)
    ensures
        out@.map_values(|e: (String, String)| (e.0@, e.1@)) == v@.map_values(
            |e: (String, String)| (e.0@, e.1@),
        ),
{
    let mut out: Vec<(String, String)> = Vec::new();
    let mut i: usize = 0;
    while i < v.len()
        invariant
            i <= v@.len(),
            out@.len() == i,
            forall|j: int| 0 <= j < i ==> (#[trigger] out@[j]).0@ == v@[j].0@ && out@[j].1@ == v@[j].1@,
        decreases v@.len() - i,
    {
        out.push((v[i].0.clone(), v[i].1.clone()));
        i = i + 1;
    }
    assert(out@.map_values(|e: (String, String)| (e.0@, e.1@)) =~= v@.map_values(
        |e: (String, String)| (e.0@, e.1@),
    ));
    out
}

/// Validates a request and decides how to start its process: the program
/// must be non-empty and allowed by the allowlist (`allowlist` is the value
/// of `MCP_TERMINAL_ALLOWED_COMMANDS`, when set).
pub fn prepare_execution(req: &ExecutionRequest, allowlist: Option<&str>) -> (res: Result<Invocation, TerminalMcpError>)
    ensures
        match res {
            Ok(inv) => {
                &&& program_of(req.mode).len() > 0
                &&& command_allowed(program_of(req.mode), opt_str_view(allowlist))
                &&& invocation_for(*req, inv)
            },
            Err(TerminalMcpError::Shell(ShellError::InvalidCommand(m))) => if program_of(req.mode).len()
                == 0 {
                m@ == "Command cannot be empty"@
            } else {
                &&& !command_allowed(program_of(req.mode), opt_str_view(allowlist))
                &&& m@ == "Command '"@ + program_of(req.mode) + "' is not in MCP_TERMINAL_ALLOWED_COMMANDS"@
            },
            _ => false,
        },
{
    let program = match &req.mode {
        ExecuteMode::Command { command, .. } => command.clone(),
        ExecuteMode::Script { .. } => String::from_str("sh"),
    };
    if program.as_str().is_empty() {
        return Err(
            TerminalMcpError::Shell(ShellError::InvalidCommand(String::from_str("Command cannot be empty"))),
        );
    }
    match check_command_allowed(program.as_str(), allowlist) {
        Ok(()) => {},
        Err(e) => {
            return Err(e);
        },
    }
    let (args, env_vars, stdin_input) = match &req.mode {
        ExecuteMode::Command { args, stdin_input, .. } => {
            let a = match args {
                Some(a) => copy_strings(a),
                None => Vec::new(),
            };
            let s = match stdin_input {
                Some(s) => Some(s.clone()),
                None => None,
            };
            (a, Vec::new(), s)
        },
        ExecuteMode::Script { script, script_args, env_vars } => {
            let mut a: Vec<String> = Vec::new();
            a.push(String::from_str("-s"));
            a.push(String::from_str("--"));
            let ghost head = a@.map_values(|x: String| x@);
            assert(head =~= seq!["-s"@, "--"@]);
            match script_args {
                Some(extra) => {
                    let mut i: usize = 0;
                    while i < extra.len()
                        invariant
                            i <= extra@.len(),
                            a@.len() == i + 2,
                            a@[0]@ == "-s"@,
                            a@[1]@ == "--"@,
                            forall|j: int| 0 <= j < i ==> (#[trigger] a@[j + 2])@ == extra@[j]@,
                        decreases extra@.len() - i,
                    {
                        a.push(extra[i].clone());
                        i = i + 1;
                    }
                    let ghost target = seq!["-s"@, "--"@] + extra@.map_values(|x: String| x@);
                    assert forall|k: int| 0 <= k < a@.len() implies a@.map_values(|x: String| x@)[k] == target[k] by {
                        if k >= 2 {
                            assert((a@[(k - 2) + 2])@ == extra@[k - 2]@);
                        }
                    }
                    assert(a@.map_values(|x: String| x@) =~= target);
                },
                None => {
                    assert(a@.map_values(|x: String| x@) =~= seq!["-s"@, "--"@] + Seq::<Seq<char>>::empty());
                },
            }
            let e = match env_vars {
                Some(v) => copy_pairs(v),
                None => Vec::new(),
            };
            (a, e, Some(script.clone()))
        },
    };
    let cwd = match &req.cwd {
        Some(c) => Some(c.clone()),
        None => None,
    };
    let timeout_secs = match req.timeout_secs {
        Some(t) => t,
        None => DEFAULT_TIMEOUT_SECS,
    };
    let max_lines = match req.max_lines {
        Some(m) => m,
        None => DEFAULT_MAX_LINES,
    };
    let inactivity_timeout_secs = match req.inactivity_timeout_secs {
        Some(t) => if t > 0 {
            Some(t)
        } else {
            None
        },
        None => None,
    };
    let inv = Invocation {
        program,
        args,
        env_vars,
        stdin_input,
        cwd,
        timeout_secs,
        inactivity_timeout_secs,
        max_lines,
        detach: req.detach,
    };
    proof {
        assert(inv.args@.map_values(|x: String| x@) =~= args_of(req.mode));
        assert(inv.env_vars@.map_values(|e: (String, String)| (e.0@, e.1@)) =~= env_of(req.mode));
    }
    Ok(inv)
}

/// The invocation of a request keeps the caller's limits, whatever the mode:
/// its timeout and line limit when given (30 s and 200 lines otherwise), its
/// working directory and detach flag. A command runs itself with its own
/// arguments and standard input; a script runs `sh -s --` followed by its
/// positional arguments, with the script body as standard input.
pub proof fn lemma_invocation_of_request(req: ExecutionRequest, inv: Invocation)
    requires
        invocation_for(req, inv),
    ensures
        req.timeout_secs matches Some(t) ==> inv.timeout_secs == t,
        req.timeout_secs is None ==> inv.timeout_secs == 30,
        req.max_lines matches Some(m) ==> inv.max_lines == m,
        req.max_lines is None ==> inv.max_lines == 200,
        req.inactivity_timeout_secs matches Some(t) ==> (t > 0 ==> inv.inactivity_timeout_secs == Some(t)),
        inv.cwd == req.cwd,
        inv.detach == req.detach,
        match req.mode {
            ExecuteMode::Command { command, args, stdin_input } => {
                &&& inv.program@ == command@
                &&& inv.args@.len() == (match args {
                    Some(a) => a@.len(),
                    None => 0,
                })
                &&& forall|i: int| 0 <= i < inv.args@.len() ==> #[trigger] inv.args@[i]@ == args.unwrap()@[i]@
                &&& inv.env_vars@.len() == 0
                &&& match stdin_input {
                    Some(x) => inv.stdin_input matches Some(y) && y@ == x@,
                    None => inv.stdin_input is None,
                }
            },
            ExecuteMode::Script { script, script_args, env_vars } => {
                &&& inv.program@ == seq!['s', 'h']
                &&& inv.args@.len() == 2 + (match script_args {
                    Some(a) => a@.len(),
                    None => 0,
                })
                &&& inv.args@[0]@ == seq!['-', 's']
                &&& inv.args@[1]@ == seq!['-', '-']
                &&& forall|i: int| 2 <= i < inv.args@.len() ==> #[trigger] inv.args@[i]@ == script_args.unwrap()@[i - 2]@
                &&& inv.stdin_input matches Some(y) && y@ == script@
                &&& inv.env_vars@.len() == (match env_vars {
                    Some(v) => v@.len(),
                    None => 0,
                })
            },
        },
{
    reveal_strlit("sh");
    reveal_strlit("-s");
    reveal_strlit("--");
    let a = inv.args@.map_values(|x: String| x@);
    assert(a.len() == inv.args@.len());
    match req.mode {
        ExecuteMode::Command { command, args, stdin_input } => {
            assert(inv.env_vars@.map_values(|e: (String, String)| (e.0@, e.1@)).len() == inv.env_vars@.len());
            assert forall|i: int| 0 <= i < inv.args@.len() implies #[trigger] inv.args@[i]@ == args.unwrap()@[i]@ by {
                assert(a[i] == inv.args@[i]@);
                assert(args.unwrap()@.map_values(|x: String| x@)[i] == args.unwrap()@[i]@);
            }
        },
        ExecuteMode::Script { script, script_args, env_vars } => {
            assert(a[0] == inv.args@[0]@);
            assert(a[1] == inv.args@[1]@);
            assert forall|i: int| 2 <= i < inv.args@.len() implies #[trigger] inv.args@[i]@ == script_args.unwrap()@[i - 2]@ by {
                assert(a[i] == inv.args@[i]@);
                assert(script_args.unwrap()@.map_values(|x: String| x@)[i - 2] == script_args.unwrap()@[i - 2]@);
            }
            assert(inv.env_vars@.map_values(|e: (String, String)| (e.0@, e.1@)).len() == inv.env_vars@.len());
        },
    }
}

/// Environment variables kept when the inherited environment is scrubbed.
pub open spec fn safe_env_key_list() -> Seq<Seq<char>> {
    seq!["PATH"@, "HOME"@, "USER"@, "TMPDIR"@, "TERM"@, "LANG"@]
}

/// The names of the environment variables that survive scrubbing.
pub fn safe_env_keys() -> (keys: Vec<String>)
    ensures
        keys@.map_values(|k: String| k@) == safe_env_key_list(),
{
    let mut keys: Vec<String> = Vec::new();
    keys.push(String::from_str("PATH"));
    keys.push(String::from_str("HOME"));
    keys.push(String::from_str("USER"));
    keys.push(String::from_str("TMPDIR"));
    keys.push(String::from_str("TERM"));
    keys.push(String::from_str("LANG"));
    assert(keys@.map_values(|k: String| k@) =~= safe_env_key_list());
    keys
}

/// Whether spawned commands inherit the server's environment: only when
/// `MCP_TERMINAL_INHERIT_ENV` is set to exactly `1`. Otherwise the
/// environment is cleared down to [`safe_env_keys`] before the request's own
/// variables are added.
pub fn inherit_environment(flag: Option<&str>) -> (inherit: bool)
    ensures
        inherit == (opt_str_view(flag) == Some("1"@)),
{
    match flag {
        Some(v) => str_eq(v, "1"),
        None => false,
    }
}

/// Pseudo-filesystem roots that may never be a working directory.
pub open spec fn forbidden_roots() -> Seq<Seq<char>> {
    seq!["/proc"@, "/sys"@, "/dev"@]
}

/// A canonical path lies under `root` when it is `root` or starts with
/// `root/`.
pub open spec fn lies_under(path: Seq<char>, root: Seq<char>) -> bool {
    path == root || (path.len() > root.len() && path.take(root.len() as int + 1) == root.push('/'))
}

/// The first forbidden root a canonical path lies under, if any.
pub open spec fn forbidden_root_of(path: Seq<char>) -> Option<Seq<char>> {
    if lies_under(path, "/proc"@) {
        Some("/proc"@)
    } else if lies_under(path, "/sys"@) {
        Some("/sys"@)
    } else if lies_under(path, "/dev"@) {
        Some("/dev"@)
    } else {
        None
    }
}

fn under_root(path: &Vec<char>, root: &str) -> (b: bool)
    ensures
        b == lies_under(path@, root@),
{
    let r = crate::text::chars_of(root);
    if path.len() == r.len() {
        let mut i: usize = 0;
        while i < r.len()
            invariant
                i <= r@.len(),
                r@.len() == path@.len(),
                r@ == root@,
                forall|j: int| 0 <= j < i ==> path@[j] == r@[j],
            decreases r@.len() - i,
        {
            if path[i] != r[i] {
                assert(path@[i as int] != root@[i as int]);
                return false;
            }
            i = i + 1;
        }
        assert(path@ =~= root@);
        true
    } else if path.len() > r.len() {
        let mut i: usize = 0;
        while i < r.len()
            invariant
                i <= r@.len(),
                r@.len() < path@.len(),
                r@ == root@,
                forall|j: int| 0 <= j < i ==> path@[j] == r@[j],
            decreases r@.len() - i,
        {
            if path[i] != r[i] {
                assert(path@.take(root@.len() as int + 1)[i as int] != root@.push('/')[i as int]);
                return false;
            }
            i = i + 1;
        }
        let slash = path[r.len()] == '/';
        proof {
            if slash {
                assert(path@.take(root@.len() as int + 1) =~= root@.push('/'));
            } else {
                assert(path@.take(root@.len() as int + 1)[root@.len() as int] != root@.push('/')[root@.len() as int]);
            }
        }
        slash
    } else {
        false
    }
}

/// Refuses a working directory that lies under `/proc`, `/sys` or `/dev`.
/// `canonical` is the directory after `~` expansion and canonicalization;
/// `cwd` is the value the caller gave.
pub fn check_working_dir(cwd: &str, canonical: &str) -> (res: Result<(), TerminalMcpError>)
    ensures
        match res {
            Ok(()) => forbidden_root_of(canonical@) is None,
            Err(TerminalMcpError::Shell(ShellError::ExecutionFailed(m))) => match forbidden_root_of(
                canonical@,
            ) {
                Some(root) => m@ == "Refusing to use working directory under "@ + root + ": "@ + cwd@,
                None => false,
            },
            _ => false,
        },
{
    let path = crate::text::chars_of(canonical);
    if under_root(&path, "/proc") {
        return Err(TerminalMcpError::Shell(ShellError::ExecutionFailed(refusal("/proc", cwd))));
    }
    if under_root(&path, "/sys") {
        return Err(TerminalMcpError::Shell(ShellError::ExecutionFailed(refusal("/sys", cwd))));
    }
    if under_root(&path, "/dev") {
        return Err(TerminalMcpError::Shell(ShellError::ExecutionFailed(refusal("/dev", cwd))));
    }
    Ok(())
}

fn refusal(root: &str, cwd: &str) -> (m: String)
    ensures
        m@ == "Refusing to use working directory under "@ + root@ + ": "@ + cwd@,
{
    let mut m = String::from_str("Refusing to use working directory under ");
    m.append(root);
    m.append(": ");
    m.append(cwd);
    m
}

/// The error for a working directory that does not exist.
pub fn missing_working_dir(cwd: &str) -> (e: TerminalMcpError)
    ensures
        e matches TerminalMcpError::Shell(ShellError::ExecutionFailed(m))
            && m@ == "Working directory does not exist: "@ + cwd@,
{
    TerminalMcpError::Shell(ShellError::ExecutionFailed(concat2("Working directory does not exist: ", cwd)))
}

/// The error for a working directory that cannot be resolved.
pub fn unresolvable_working_dir(cwd: &str, detail: &str) -> (e: TerminalMcpError)
    ensures
        e matches TerminalMcpError::Shell(ShellError::ExecutionFailed(m))
            && m@ == "Failed to resolve working directory '"@ + cwd@ + "': "@ + detail@,
{
    let mut m = String::from_str("Failed to resolve working directory '");
    m.append(cwd);
    m.append("': ");
    m.append(detail);
    TerminalMcpError::Shell(ShellError::ExecutionFailed(m))
}

/// The error for a process that could not be started: `CommandNotFound`
/// when the program does not exist, `ExecutionFailed` otherwise.
pub fn spawn_failure(program: &str, not_found: bool, detail: &str) -> (e: TerminalMcpError)
    ensures
        match e {
            TerminalMcpError::Shell(ShellError::CommandNotFound(c)) => not_found && c@ == program@,
            TerminalMcpError::Shell(ShellError::ExecutionFailed(m)) => !not_found && m@
                == "Failed to spawn command '"@ + program@ + "': "@ + detail@,
            _ => false,
        },
{
    if not_found {
        TerminalMcpError::Shell(ShellError::CommandNotFound(String::from_str(program)))
    } else {
        let mut m = String::from_str("Failed to spawn command '");
        m.append(program);
        m.append("': ");
        m.append(detail);
        TerminalMcpError::Shell(ShellError::ExecutionFailed(m))
    }
}

/// The error for a process whose exit status could not be collected.
pub fn wait_failure(program: &str, detail: &str) -> (e: TerminalMcpError)
    ensures
        e matches TerminalMcpError::Shell(ShellError::ExecutionFailed(m))
            && m@ == "Failed to wait for command '"@ + program@ + "': "@ + detail@,
{
    let mut m = String::from_str("Failed to wait for command '");
    m.append(program);
    m.append("': ");
    m.append(detail);
    TerminalMcpError::Shell(ShellError::ExecutionFailed(m))
}

/// The result of a process that exited on its own: its exit code (-1 when
/// it was ended by a signal) and the retained output of both streams.
pub fn completed_result(code: Option<i32>, stdout: (String, bool), stderr: (String, bool)) -> (r: ExecuteResult)
    ensures
        r.exit_code == match code {
            Some(c) => c,
            None => -1i32,
        },
        r.stdout == stdout.0,
        r.stdout_truncated == stdout.1,
        r.stderr == stderr.0,
        r.stderr_truncated == stderr.1,
        !r.timed_out,
        r.detached_pid is None,
{
    ExecuteResult {
        exit_code: match code {
            Some(c) => c,
            None => -1,
        },
        stdout: stdout.0,
        stderr: stderr.0,
        timed_out: false,
        stdout_truncated: stdout.1,
        stderr_truncated: stderr.1,
        detached_pid: None,
    }
}

/// The result of a run stopped by its timeout: no partial output, exit
/// code -1, and a message naming the timeout.
pub fn timed_out_result(timeout_secs: u64) -> (r: ExecuteResult)
    ensures
        r.exit_code == -1,
        r.stdout@.len() == 0,
        r.stderr@ == "Command timed out after "@ + decimal(timeout_secs as nat) + " seconds"@,
        r.timed_out,
        !r.stdout_truncated,
        !r.stderr_truncated,
        r.detached_pid is None,
{
    let mut m = String::from_str("Command timed out after ");
    push_decimal(&mut m, timeout_secs);
    m.append(" seconds");
    ExecuteResult {
        exit_code: -1,
        stdout: String::new(),
        stderr: m,
        timed_out: true,
        stdout_truncated: false,
        stderr_truncated: false,
        detached_pid: None,
    }
}

/// The result of a run stopped because it wrote no output for
/// `idle_secs` seconds: no partial output, exit code -1, and a message
/// naming the limit.
pub fn idle_timeout_result(idle_secs: u64) -> (r: ExecuteResult)
    ensures
        r.exit_code == -1,
        r.stdout@.len() == 0,
        r.stderr@ == "Command produced no output for "@ + decimal(idle_secs as nat) + " seconds"@,
        r.timed_out,
        !r.stdout_truncated,
        !r.stderr_truncated,
        r.detached_pid is None,
{
    let mut m = String::from_str("Command produced no output for ");
    push_decimal(&mut m, idle_secs);
    m.append(" seconds");
    ExecuteResult {
        exit_code: -1,
        stdout: String::new(),
        stderr: m,
        timed_out: true,
        stdout_truncated: false,
        stderr_truncated: false,
        detached_pid: None,
    }
}

/// The result of a detached launch: exit code 0, no output, and the pid of
/// the process when it is known.
pub fn detached_result(pid: Option<u32>) -> (r: ExecuteResult)
    ensures
        r.exit_code == 0,
        r.stdout@.len() == 0,
        r.stderr@.len() == 0,
        !r.timed_out,
        !r.stdout_truncated,
        !r.stderr_truncated,
        r.detached_pid == pid,
{
    ExecuteResult {
        exit_code: 0,
        stdout: String::new(),
        stderr: String::new(),
        timed_out: false,
        stdout_truncated: false,
        stderr_truncated: false,
        detached_pid: pid,
    }
}

} // verus!
