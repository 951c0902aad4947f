[package]
name = "agent_base"
version = "0.1.0"
edition = "2021"
publish = false

[dependencies]
serde = { version = "1", features = ["derive"] }
serde_json = "1"
tokio = { version = "1", features = ["sync", "rt", "macros", "time"] }
tokio-util = "0.7"
async-trait = "0.1"
futures-core = "0.3"
futures-util = "0.3"
tracing = "0.1"
rusqlite = { version = "0.31", features = ["bundled"] }
