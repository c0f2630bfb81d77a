[package]
name = "sam"
version = "0.1.0"
edition = "2021"
publish = false

[dependencies]
fzy-rs = "*"
fuzzy-matcher = "*"
shellwords = "*"
serde = { version = "1", features = ["derive"] }
serde_yaml = "*"
serde_json = "1"
clap = "2"
termion = "1.5"
tui = { version = "0.19", default-features = false, features = ["termion"] }
tmux_interface = "*"
rustbreak = { version = "2", features = ["ron_enc"] }
dirs = "*"
uuid = { version = "1", features = ["v4"] }
rand = "0.8"
log = "0.4"
thiserror = "1"
tokio = { version = "1", features = ["full"] }
rmcp = { version = "*", features = ["server", "transport-io", "macros"] }
schemars = "*"
tracing = "0.1"
