# terminal_mcp

An MCP server that runs shell commands and stored scripts for MCP clients,
with its decision logic verified by Verus.

## Layout

- `src/` — the verified library.
  - `tools.rs`: the tool registry, script and parameter validation, the
    store of scripts, and what each tool call decides (reply, refusal, or an
    execution to run). Laws about storing, reading and removing scripts are
    at the end of the file.
  - `execute.rs`: execution requests, the command allowlist, working
    directory checks, and how a request becomes a process invocation.
  - `tail.rs`: the bounded buffer that keeps the last lines of a stream.
  - `calendar.rs`: UTC date arithmetic for the audit timestamps.
  - `audit.rs`: the text of the audit logs and the names of their files.
  - `service.rs`: error mapping and session-log summaries at the service
    boundary.
  - `json.rs`, `text.rs`, `error.rs`: the JSON model, string utilities and
    the domain errors.
- `app/` — the program around the library: the mcp-core service, process
  spawning with tokio, the audit log on disk, and `main`.
- `tests/` — tests of the library.
