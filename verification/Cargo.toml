[package]
name = "container_reconciler"
version = "0.1.0"
edition = "2021"
publish = false

[dependencies]
bollard = "*"
tokio = { version = "*", features = ["rt-multi-thread", "macros", "time"] }
ctrlc = "*"
chrono = "*"
serde = { version = "*", features = ["derive"] }
serde_json = "*"
futures = "*"
env_logger = "*"
log = "*"
