[package]
name = "git-redundancy"
version = "0.1.0"
edition = "2021"
publish = false

[dependencies]
anyhow = "1"
clap = { version = "4", features = ["derive"] }
serde = { version = "1", features = ["derive"] }
serde_json = "1"
tabled = { version = "0.16", features = ["ansi"] }
toml = "0.8"
