[package]
name = "postgrest"
version = "0.1.0"
edition = "2021"
publish = false

[dependencies]
axum = "0.8"
base64 = "0.22"
clap = { version = "4", features = ["derive"] }
moka = { version = "0.12", features = ["future"] }
openssl = "0.10"
postgres-openssl = "0.5"
reqwest = { version = "0.12", features = ["cookies", "json"] }
self-replace = "1"
serde = { version = "1", features = ["derive"] }
serde_json = "1"
service-manager = "*"
tokio = { version = "1", features = ["macros", "net", "rt-multi-thread", "sync", "time"] }
tokio-postgres = { version = "0.7", features = ["with-serde_json-1"] }
windows-service = "*"
