//! Domain errors of the tool server and their messages.

use vstd::prelude::*;
use vstd::string::StringExecFns;
use crate::text::{decimal, push_decimal};

verus! {

/// Errors originating from process execution.
#[derive(Debug, Clone, PartialEq, Eq)]
pub enum ShellError {
    /// Command binary could not be found on PATH.
    CommandNotFound(String),
    /// Command setup or execution failed before a clean result was produced.
    ExecutionFailed(String),
    /// Command exceeded the configured timeout.
    Timeout(u64),
    /// Command input was invalid.
    InvalidCommand(String),
}

/// Errors related to stored scripts.
#[derive(Debug, Clone, PartialEq, Eq)]
pub enum ScriptError {
    /// Requested script was not found.
    NotFound(String),
    /// Script name failed validation.
    InvalidName(String),
}

/// Errors related to tool dispatch.
#[derive(Debug, Clone, PartialEq, Eq)]
pub enum McpError {
    /// Requested tool name does not exist.
    ToolNotFound(String),
    /// Tool parameters were missing or invalid.
    InvalidToolParameters(String),
}

/// Top-level domain error. Failures of the JSON encoder and of I/O are
/// carried as the message they reported.
#[derive(Debug, Clone, PartialEq, Eq)]
pub enum TerminalMcpError {
    /// Shell execution errors.
    Shell(ShellError),
    /// Tool-dispatch errors (unknown tool, bad parameters).
    Mcp(McpError),
    /// JSON serialization failure while building a tool reply.
    Json(String),
    /// Script storage and invocation errors.
    Script(ScriptError),
    /// Underlying I/O errors.
    Io(String),
}

/// Builds a string from a literal prefix followed by `tail`.
pub(crate) fn concat2(a: &str, b: &str) -> (s: String)
    ensures
        s@ == a@ + b@,
{
    let mut s = String::from_str(a);
    s.append(b);
    s
}

pub(crate) fn concat3(a: &str, b: &str, c: &str) -> (s: String)
    ensures
        s@ == a@ + b@ + c@,
{
    let mut s = String::from_str(a);
    s.append(b);
    s.append(c);
    s
}

impl ShellError {
    /// The human-readable message of the error.
    pub open spec fn describe(self) -> Seq<char> {
        match self {
            ShellError::CommandNotFound(s) => "Command not found: "@ + s@,
            ShellError::ExecutionFailed(s) => "Execution failed: "@ + s@,
            ShellError::Timeout(n) => "Command timed out after "@ + decimal(n as nat) + " seconds"@,
            ShellError::InvalidCommand(s) => "Invalid command: "@ + s@,
        }
    }

    /// The human-readable message of the error.
    pub fn message(&self) -> (m: String)
        ensures
            m@ == self.describe(),
    {
        match self {
            ShellError::CommandNotFound(s) => concat2("Command not found: ", s.as_str()),
            ShellError::ExecutionFailed(s) => concat2("Execution failed: ", s.as_str()),
            ShellError::Timeout(n) => {
                let mut m = String::from_str("Command timed out after ");
                push_decimal(&mut m, *n);
                m.append(" seconds");
                m
            },
            ShellError::InvalidCommand(s) => concat2("Invalid command: ", s.as_str()),
        }
    }
}

impl ScriptError {
    /// The human-readable message of the error.
    pub open spec fn describe(self) -> Seq<char> {
        match self {
            ScriptError::NotFound(s) => "Script not found: "@ + s@,
            ScriptError::InvalidName(s) => "Invalid script name: "@ + s@,
        }
    }

    /// The human-readable message of the error.
    pub fn message(&self) -> (m: String)
        ensures
            m@ == self.describe(),
    {
        match self {
            ScriptError::NotFound(s) => concat2("Script not found: ", s.as_str()),
            ScriptError::InvalidName(s) => concat2("Invalid script name: ", s.as_str()),
        }
    }
}

impl McpError {
    /// The human-readable message of the error.
    pub open spec fn describe(self) -> Seq<char> {
        match self {
            McpError::ToolNotFound(s) => "Tool not found: "@ + s@,
            McpError::InvalidToolParameters(s) => "Invalid tool parameters: "@ + s@,
        }
    }

    /// The human-readable message of the error.
    pub fn message(&self) -> (m: String)
        ensures
            m@ == self.describe(),
    {
        match self {
            McpError::ToolNotFound(s) => concat2("Tool not found: ", s.as_str()),
            McpError::InvalidToolParameters(s) => concat2("Invalid tool parameters: ", s.as_str()),
        }
    }
}

impl TerminalMcpError {
    /// The human-readable message of the error.
    pub open spec fn describe(self) -> Seq<char> {
        match self {
            TerminalMcpError::Shell(e) => "Shell error: "@ + e.describe(),
            TerminalMcpError::Mcp(e) => "MCP protocol error: "@ + e.describe(),
            TerminalMcpError::Json(s) => "JSON error: "@ + s@,
            TerminalMcpError::Script(e) => "Script error: "@ + e.describe(),
            TerminalMcpError::Io(s) => "IO error: "@ + s@,
        }
    }

    /// The human-readable message of the error.
    pub fn message(&self) -> (m: String)
        ensures
            m@ == self.describe(),
    {
        match self {
            TerminalMcpError::Shell(e) => concat2("Shell error: ", e.message().as_str()),
            TerminalMcpError::Mcp(e) => concat2("MCP protocol error: ", e.message().as_str()),
            TerminalMcpError::Json(s) => concat2("JSON error: ", s.as_str()),
            TerminalMcpError::Script(e) => concat2("Script error: ", e.message().as_str()),
            TerminalMcpError::Io(s) => concat2("IO error: ", s.as_str()),
        }
    }
}

/// An `InvalidToolParameters` error with the given message.
pub fn invalid_params(msg: String) -> (e: TerminalMcpError)
    ensures
        e == TerminalMcpError::Mcp(McpError::InvalidToolParameters(msg)),
{
    TerminalMcpError::Mcp(McpError::InvalidToolParameters(msg))
}

} // verus!
