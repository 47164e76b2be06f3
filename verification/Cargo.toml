[package]
name = "ws_server"
version = "0.1.0"
edition = "2021"
publish = false

[dependencies]
actix-web = { version = "4", default-features = false, features = ["macros"] }
actix-ws = "0.3"
anyhow = "1"
blake3 = { version = "1", features = ["pure"] }
chacha20 = "0.9"
chacha20poly1305 = "0.10"
ed25519-dalek = "2"
futures = "0.3"
futures-util = "0.3"
hex = "0.4"
rand = "0.8"
serde_json = "1"
tokio = { version = "1", features = ["macros", "rt", "sync", "time"] }
tracing = "0.1"
tracing-subscriber = { version = "0.3", features = ["env-filter"] }
x25519-dalek = "2"
