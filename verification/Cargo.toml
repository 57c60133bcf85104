[package]
name = "remtodo"
version = "0.1.0"
edition = "2021"
publish = false

[dependencies]
chrono = { version = "0.4", features = ["serde"] }
dirs = "6"
env_logger = "0.11"
log = "0.4"
serde = { version = "1", features = ["derive"] }
serde_json = "1"
signal-hook = "*"
thiserror = "2"
todo_lib = "*"
toml = "*"

[dev-dependencies]
tempfile = "3"
