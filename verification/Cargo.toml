[package]
name = "convergio_mesh"
version = "0.1.10"
edition = "2021"
publish = false

[dependencies]
hmac = "0.12"
sha2 = "0.10"
rand = "0.9"
hex = "0.4"
base64 = "0.22"
serde = { version = "1", features = ["derive"] }
serde_json = "1"
chrono = { version = "0.4", default-features = false, features = ["clock", "std"] }
thiserror = "2"
tracing = "0.1"
hostname = "0.4"
axum = "0.7"
tokio = { version = "1", features = ["rt", "rt-multi-thread", "time", "macros"] }
reqwest = { version = "0.12", default-features = false, features = ["blocking", "json"] }
rusqlite = { version = "0.32", features = ["bundled"] }
