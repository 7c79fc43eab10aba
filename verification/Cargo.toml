[package]
name = "assistant"
version = "0.1.0"
edition = "2021"
publish = false

[dependencies]
barrel = { version = "=0.7.0", features = ["pg"] }
carapax = { version = "=0.40.0", features = ["access", "dialogue", "session-redis", "webhook"] }
clap = { version = "=4.6.7", features = ["derive"] }
dotenvy = "=0.15.7"
env_logger = "=0.11.11"
log = "=0.4.34"
redis = { version = "=1.7.1", features = ["tokio-comp", "connection-manager"] }
refinery = { version = "=0.10.0", features = ["tokio-postgres"] }
serde = { version = "=1.0.229", features = ["derive"] }
serde_yaml = "=0.9.34"
tokio = { version = "=1.53.2", features = ["full"] }
tokio-postgres = "=0.7.18"
