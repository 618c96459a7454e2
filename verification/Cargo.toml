[package]
name = "orchestrator"
version = "0.1.0"
edition = "2021"
publish = false

[dependencies]
slotmap = "1"
tokio = { version = "1", features = ["rt-multi-thread", "macros", "sync", "time", "signal"] }
tokio-util = "0.7"
async-trait = "0.1"
rusqlite = { version = "*", features = ["bundled"] }
rkyv = { version = "0.7", features = ["validation"] }
procfs = "*"
nix = { version = "*", features = ["fs"] }
libc = "0.2"
tracing = "0.1"
tracing-subscriber = "0.3"
tracing-log = "0.2"
clap = { version = "4", features = ["derive"] }
clap-verbosity-flag = "*"
serde = { version = "1", features = ["derive"] }
serde_with = "3"
toml_edit = { version = "0.22", features = ["serde"] }
thiserror = "1"
anyhow = "1"
flume = "0.11"
