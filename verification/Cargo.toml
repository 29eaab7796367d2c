[package]
name = "webpg"
version = "0.1.0"
edition = "2021"
publish = false

[dependencies]
sha2 = "0.10"
pem = "3"
serde_json = "1"
serde = { version = "1", features = ["derive"] }
tokio = { version = "1", features = ["sync", "macros", "rt-multi-thread", "io-util"] }
rcgen = "0.13"
chrono = { version = "0.4", default-features = false, features = ["clock", "std"] }
salvo = { version = "*", features = ["quinn", "affix-state"] }
sqlx = { version = "0.8", default-features = false, features = ["sqlite", "runtime-tokio"] }
rustls = { version = "0.23", default-features = false, features = ["ring", "std", "logging", "tls12"] }
