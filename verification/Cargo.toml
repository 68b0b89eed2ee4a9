[package]
name = "edgen_core"
version = "0.1.0"
edition = "2021"
publish = false

[dependencies]
argh = "0.1"
async-trait = "0.1"
either = { version = "1", features = ["serde"] }
futures = "0.3"
rand = "0.8"
reqwest = { version = "0.11", default-features = false, features = ["json", "stream"] }
reqwest-eventsource = "0.5"
serde = { version = "1", features = ["derive"] }
serde_json = "1"
thiserror = "1"
tokio = { version = "1", features = ["rt-multi-thread", "macros", "time", "sync"] }
tracing = "0.1"
tracing-subscriber = { version = "0.3", features = ["env-filter"] }
