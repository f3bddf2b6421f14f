[package]
name = "terminal_mcp"
version = "0.1.0"
edition = "2021"
publish = false

[dependencies]
mcp-core = "*"
serde = { version = "1", features = ["derive"] }
serde_json = "1"
shellexpand = "3"
tokio = { version = "1", features = ["process", "io-util", "rt-multi-thread", "macros", "time", "sync"] }
uuid = { version = "1", features = ["v4"] }
libc = "0.2"
thiserror = "*"
tracing = "0.1"
