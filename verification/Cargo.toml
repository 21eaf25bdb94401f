[package]
name = "ferrotone"
version = "0.1.0"
edition = "2021"
publish = false

[dependencies]
clap = { version = "4", features = ["derive"] }
cpal = "0.15"
crossbeam-channel = "0.5"
dirs = "*"
hound = "3"
nnnoiseless = "0.5"
pitch-core = "0.1"
serde = { version = "1", features = ["derive"] }
serde_json = "1"
thiserror = "*"
toml = "*"
tracing = "0.1"
tracing-subscriber = { version = "0.3", features = ["env-filter"] }
ureq = "*"
zip = { version = "*", default-features = false, features = ["deflate"] }
