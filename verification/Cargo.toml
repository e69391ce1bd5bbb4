[package]
name = "mcode_plugin_host"
version = "0.1.0"
edition = "2021"
publish = false

[dependencies]
base64 = "0.22"
semver = "1"
serde = { version = "1", features = ["derive"] }
serde_json = "1"
sha2 = "0.10"
thiserror = "2"
