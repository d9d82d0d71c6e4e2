[package]
name = "remux"
version = "0.1.0"
edition = "2021"
publish = false

[dependencies]
anyhow = "1"
dirs = "*"
log = "0.4"
nix = { version = "*", features = ["process", "term", "fs", "signal"] }
regex = "1"
serde = { version = "1", features = ["derive"] }
serde_json = "1"
tokio = { version = "1", features = ["io-util", "net", "sync", "time", "signal", "rt-multi-thread", "macros"] }
