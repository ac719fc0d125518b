[package]
name = "oukaro"
version = "0.1.0"
edition = "2021"
publish = false

[dependencies]
cesu8 = "1.1"
quick-xml = "0.37"
anyhow = "1"
clap = { version = "4", features = ["derive"] }
serde = { version = "1", features = ["derive"] }
serde_json = "1"
toml = "0.8"
tempfile = "3"
log = "0.4"
env_logger = "0.11"
chrono = "0.4"
rustix = { version = "1", features = ["mount", "fs"] }
