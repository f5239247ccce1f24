[package]
name = "verilog-core"
version = "0.3.0"
edition = "2021"
publish = false

[dependencies]
anyhow = "1"
rmcp = { version = "1.7", features = ["server", "macros", "transport-io", "schemars"] }
serde = { version = "1", features = ["derive"] }
serde_json = "1"
tokio = { version = "1", features = ["macros", "rt-multi-thread", "sync", "io-std"] }
tracing = "0.1"
tracing-subscriber = { version = "0.3", features = ["env-filter"] }
wellen = "0.20"
