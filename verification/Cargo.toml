[package]
name = "turn_tracker"
version = "0.1.0"
edition = "2021"
publish = false

[dependencies]
rand = "*"
dashmap = "*"
tokio = { version = "1", features = ["sync", "time", "rt", "macros"] }
actix-web = "4"
actix-files = "*"
actix-governor = "*"
actix-ws = "*"
futures-util = "0.3"
serde = { version = "1", features = ["derive"] }
serde_json = "1"
thiserror = "*"
log = "0.4"
env_logger = "*"
