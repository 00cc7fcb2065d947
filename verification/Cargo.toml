[package]
name = "kdl"
version = "0.1.0"
edition = "2021"
publish = false

[dependencies]
regex = "1"
jiff = "0.2"
miette = { version = "7", features = ["fancy"] }
clap = { version = "4", features = ["derive"] }
dashmap = "6"
globset = "0.4"
url = "2"
tokio = { version = "1", features = ["rt-multi-thread", "macros", "io-std", "sync"] }
tower-lsp = "0.20"
ropey = "1"
serde_json = "1"
tracing = "0.1"
tracing-subscriber = { version = "0.3", features = ["env-filter"] }
