[package]
name = "clap_bash"
version = "1.0.0"
edition = "2021"
publish = false

[dependencies]
anyhow = "=1.0.104"
clap = { version = "=3.2.25", features = ["derive", "unstable-grouped"] }
clap-serde = "=0.5.1"
serde = { version = "=1.0.229", features = ["derive"] }
serde_json = "=1.0.154"
