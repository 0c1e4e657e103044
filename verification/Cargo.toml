[package]
name = "questdb_sink"
version = "0.1.0"
edition = "2021"
publish = false

[dependencies]
questdb-rs = { version = "=6.1.0", default-features = false, features = ["sync-sender-tcp", "tls-webpki-certs", "ring-crypto"] }
serde = { version = "1", features = ["derive"] }
slog = "2"
