[package]
name = "lsp-mcp"
version = "1.16.0"
edition = "2021"
publish = false

[dependencies]
anyhow = "=1.0.104"
async-trait = "=0.1.92"
clap = { version = "=4.6.7", features = ["derive"] }
dashmap = "=6.2.1"
lsp-types = "=0.97.0"
rmcp = { version = "1.6", features = ["server", "client", "macros", "transport-io", "schemars"] }
rust-mcp-sdk = "0.9"
schemars = "=1.2.3"
serde = { version = "=1.0.229", features = ["derive"] }
serde_json = { version = "=1.0.154", features = ["float_roundtrip"] }
tokio = { version = "=1.54.1", features = ["full"] }
url = "=2.5.8"
uuid = { version = "=1.29.0", features = ["v4"] }
