[package]
name = "chat"
version = "0.1.0"
edition = "2021"
publish = false

[dependencies]
actix = "=0.13.5"
actix-http = { version = "=3.18.12", features = ["ws"] }
actix-web = { version = "=4.15.0", default-features = false, features = ["cookies", "macros", "ws"] }
actix-web-actors = "=4.3.1"
async-trait = "=0.1.92"
bytes = "=1.12.1"
chrono = "=0.4.45"
env_logger = "=0.10.2"
futures-util = "=0.3.34"
jsonwebtoken = "=9.3.1"
log = "=0.4.34"
redis = { version = "=0.23.5", features = ["tokio-comp"] }
scylla = "=0.12.0"
serde = { version = "=1.0.229", features = ["derive"] }
serde_json = "=1.0.151"
tokio = { version = "=1.53.2", features = ["sync", "rt", "macros"] }
uuid = { version = "=1.27.0", features = ["v4", "serde"] }
