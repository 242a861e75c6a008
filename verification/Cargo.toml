[package]
name = "pser"
version = "0.1.0"
edition = "2021"
publish = false

[dependencies]
anyhow = "1"
bincode = "=1.3.3"
chacha20poly1305 = "=0.10.1"
chrono = "=0.4.45"
clap = { version = "4", features = ["derive"] }
csv = "1"
dialoguer = "0.11"
dirs = "5"
lazy_static = "1"
rand = "=0.8.8"
redb = "=1.5.2"
rust-argon2 = "=2.1.0"
serde = { version = "1", features = ["derive"] }
serde_json = "1"
sha2 = "=0.10.9"
thiserror = "1"
uuid = { version = "=1.29.0", features = ["v4"] }

[dev-dependencies]
regex = "=1.13.1"
