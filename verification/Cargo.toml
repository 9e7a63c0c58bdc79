[package]
name = "retrieve_state"
version = "0.1.0"
edition = "2021"
publish = false

[dependencies]
anyhow = "1"
casper-execution-engine = "7"
casper-hashing = "3"
casper-types = "4"
futures = "0.3"
futures-util = "0.3"
jsonrpc-lite = "*"
reqwest = { version = "0.11", default-features = false, features = ["json"] }
serde = { version = "1", features = ["derive"] }
thiserror = "1"
tokio = { version = "1", features = ["macros", "rt-multi-thread", "sync", "time"] }
tracing = "0.1"
