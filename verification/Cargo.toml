[package]
name = "mrx"
version = "0.1.0"
edition = "2021"
publish = false

[dependencies]
rnix = "*"
serde_json = "1"
serde = { version = "1", features = ["derive"] }
toml = "0.5"
clap = { version = "4", features = ["derive"] }
ignore = "0.4"
tempfile = "3"
rusqlite = "*"
thiserror = "*"
