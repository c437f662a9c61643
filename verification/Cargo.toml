[package]
name = "zk_werewolf"
version = "0.1.0"
edition = "2021"
publish = false

[dependencies]
serde = { version = "1", features = ["derive"] }
serde_json = "1"
base64 = "0.13"
chrono = { version = "0.4", features = ["serde"] }
uuid = { version = "1", features = ["v4", "serde"] }
rand = "0.8"
bcrypt = "0.15"
jsonwebtoken = "9"
crypto_box = "0.9"
ark-bn254 = "0.3"
ark-ff = "0.3"
ark-serialize = "0.3"
tokio = { version = "1", features = ["full"] }
axum = { version = "0.7", features = ["ws"] }
reqwest = { version = "0.12", default-features = false, features = ["json"] }
tower-http = { version = "0.5", features = ["cors", "trace"] }
tracing = "0.1"
tracing-subscriber = { version = "0.3", features = ["env-filter", "json"] }
dotenvy = "0.15"
once_cell = "1"
thiserror = "1"
anyhow = "1"
futures = "0.3"
itertools = "0.12"
