[package]
name = "testx"
version = "0.1.0"
edition = "2021"
publish = false

[dependencies]
anyhow = "*"
clap = { version = "*", features = ["derive"] }
clap_complete = "*"
serde = { version = "*", features = ["derive"] }
serde_json = "*"
toml = "*"
which = "*"
