[package]
name = "blockchain_simulator"
version = "0.1.0"
edition = "2021"
publish = false

[dependencies]
bincode = "1.3"
bytes = { version = "1", features = ["serde"] }
chrono = { version = "0.4", default-features = false, features = ["clock"] }
clap = "4"
log = "0.4"
rand = "0.8"
rsa = { version = "0.9", features = ["serde"] }
serde = { version = "1", features = ["derive"] }
sha2 = "0.10"
tokio = { version = "1", features = ["rt-multi-thread", "net", "time", "sync", "io-util"] }

[dev-dependencies]
tokio-util = { version = "0.7", features = ["codec"] }
