[package]
name = "orlando_cluster"
version = "0.1.0"
edition = "2021"
publish = false

[dependencies]
arc-swap = "1"
async-trait = "0.1"
axum = "0.8"
bincode = { version = "2.0.1", features = ["serde"] }
bytes = "1"
dashmap = "6"
fastrand = "2"
futures-util = "0.3"
prost = "0.13"
reqwest = { version = "0.12", default-features = false, features = ["json"] }
serde = { version = "1", features = ["derive"] }
serde_json = "1"
sqlx = { version = "0.8", default-features = false, features = ["runtime-tokio", "sqlite"] }
thiserror = "2"
tokio = { version = "1", features = ["full"] }
tokio-util = { version = "0.7", features = ["codec"] }
tonic = { version = "0.12", features = ["tls"] }
tracing = "0.1"
uuid = { version = "1", features = ["v4"] }
