[package]
name = "ipwatch"
version = "0.1.1"
edition = "2021"
publish = false

[dependencies]
async-trait = "0.1"
gethostname = "0.5"
ipconfig = "0.3"
local-ip-address = "0.6"
reqwest = { version = "0.12", default-features = false, features = ["json", "rustls-tls"] }
rusqlite = { version = "0.32", features = ["bundled"] }
serde = { version = "1", features = ["derive"] }
serde_json = "1"
thiserror = "2"
tokio = { version = "1", features = ["rt-multi-thread", "macros", "sync", "time", "net", "fs"] }
tracing = "0.1"
tracing-subscriber = { version = "0.3", features = ["env-filter"] }
uuid = { version = "1", features = ["v4"] }
