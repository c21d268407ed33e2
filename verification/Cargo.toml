[package]
name = "vevtor"
version = "0.1.0"
edition = "2021"
publish = false

[dependencies]
twox-hash = { version = "1.6", default-features = false }
qdrant-client = { version = "1", default-features = false, features = ["serde"] }
tokio = { version = "1", features = ["rt-multi-thread", "macros", "sync", "time"] }
serde = { version = "1", features = ["derive"] }
serde_json = "1"
syn = { version = "1", features = ["full"] }
quote = "1"
proc-macro2 = "1"
