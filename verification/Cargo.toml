[package]
name = "pfsense_dashboard"
version = "0.1.0"
edition = "2021"
publish = false

[dependencies]
backtrace = "*"
dirs = "*"
roxmltree = "*"
serde = { version = "1", features = ["derive"] }
serde_derive = "1"
serde_json = "1"
serde_yaml = "*"
ssh2 = "*"
