[package]
name = "topic_manifest"
version = "0.1.0"
edition = "2021"
publish = false

[dependencies]
serde = { version = "=1.0.229", features = ["derive"] }
serde_json = { version = "=1.0.151", features = ["preserve_order"] }
toml = "=1.1.7"
clap = { version = "=4.6.7", features = ["derive"] }
eyre = "=0.6.14"
jwalk = "=0.9.0"
log = "=0.4.34"
pretty_env_logger = "=0.5.0"
rayon = "=1.12.0"
