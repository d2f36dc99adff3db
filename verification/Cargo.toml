[package]
name = "weightlifting_core"
version = "0.1.0"
edition = "2021"
publish = false

[dependencies]
rusqlite = { version = "*", features = ["bundled"] }
r2d2 = "*"
r2d2_sqlite = { version = "*", features = ["bundled"] }
uuid = { version = "*", features = ["v4"] }
serde = { version = "*", features = ["derive"] }
log = "*"
env_logger = "*"
thiserror = "*"

[dev-dependencies]
serde_json = "*"
tempfile = "*"
