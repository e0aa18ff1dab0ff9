[package]
name = "pod_report"
version = "0.1.0"
edition = "2021"
publish = false

[dependencies]
chrono = "0.4"
clap = { version = "4", features = ["derive"] }
config = { version = "0.14", default-features = false, features = ["toml"] }
dirs = "5"
humantime = "2"
itertools = "0.13"
regex = "1"
serde_json = "1"
tabled = "0.15"
