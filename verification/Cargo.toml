[package]
name = "perry_container_compose"
version = "0.1.0"
edition = "2021"
publish = false

[dependencies]
md-5 = "0.10"
hex = "0.4"
rand = "0.8"
indexmap = { version = "2", features = ["serde"] }
serde = { version = "1", features = ["derive"] }
serde_json = "1"
serde_yaml = "0.9"
tokio = { version = "1", features = ["rt", "rt-multi-thread", "macros", "process", "time", "sync"] }
async-trait = "0.1"
which = "6"
home = "0.5"
console = "0.15"
dialoguer = "0.11"
tracing = "0.1"
tracing-subscriber = { version = "0.3", features = ["env-filter", "fmt"] }
dashmap = "6"
once_cell = "1"
thiserror = "1"
clap = { version = "4", features = ["derive"] }
