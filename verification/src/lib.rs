//! Verified core of a shell-execution tool server: output tail buffering,
//! calendar arithmetic for audit timestamps, the stored-script registry and
//! the decisions taken for each tool call.

pub mod text;
pub mod error;
pub mod calendar;
pub mod tail;
pub mod json;
pub mod tools;
pub mod execute;
pub mod audit;
pub mod service;

use vstd::prelude::*;

verus! {

/// The model-facing description of the server returned from `initialize`:
/// what it does, when to use it, the key tools, and the safety note.
pub const SERVER_INSTRUCTIONS: &'static str = "Runs shell commands and scripts on the local machine and returns their exit code, stdout, and stderr. Reach for this whenever a request means actually doing something on this computer -- checking system or package state, listing or editing files, running a build or test, git operations, or launching an app -- rather than answering from memory. `terminal_execute` runs a one-off command or a multi-line script (with args, a working directory, a timeout, stdin, or detach=true to launch a long-running process fire-and-forget); `terminal_store_script`, `terminal_list_scripts`, and `terminal_remove_script` save reusable named scripts that appear as their own `script_<name>` tools until the server restarts. Commands run arbitrary shell as the server's non-root user and, by default, do not inherit its environment (secrets are scrubbed unless MCP_TERMINAL_INHERIT_ENV=1); an optional MCP_TERMINAL_ALLOWED_COMMANDS allowlist can restrict what may run.";

} // verus!
