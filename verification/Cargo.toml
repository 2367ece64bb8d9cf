[package]
name = "subconscious_core"
version = "0.1.0"
edition = "2021"
publish = false

[dependencies]
colored = "=3.1.1"
config = "=0.15.27"
env_logger = "=0.11.11"
log = "=0.4.34"
redis = { version = "=1.7.1", features = ["tokio-comp"] }
reqwest = { version = "=0.13.5", default-features = false, features = ["json"] }
serde = { version = "=1.0.229", features = ["derive"] }
serde_json = "=1.0.151"
tokio = { version = "=1.53.2", features = ["full"] }
warp = { version = "=0.4.3", features = ["server"] }
